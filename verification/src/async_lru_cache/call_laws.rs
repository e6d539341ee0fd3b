//! What calls of the functions here give, in terms that the laws speak of.

use crate::async_lru_cache::cache::AsyncLruCache;
use crate::async_lru_cache::check_circular::{CheckCircular, CheckCircularStep};
use crate::async_lru_cache::depend_on::{DependOn, DependOnPhase, DependOnStep};
use crate::async_lru_cache::entry::{AsyncLruCacheEntry, Observation};
use crate::async_lru_cache::eviction::{
    choose_victim, oldest_unused, starts_making_room, weakly_referenced, EnsureFreeEntry,
    EnsureFreeEntryStep, Victim,
};
use crate::async_lru_cache::flush::{Flush, FlushStep};
use crate::async_lru_cache::get_or_insert::{GetOrInsert, GetOrInsertStep};
use crate::async_lru_cache::graph::{agrees, depends, Graph};
use crate::async_lru_cache::insert::{Insert, InsertStep};
use crate::async_lru_cache::invalidate::{Invalidate, InvalidateStep};
use crate::async_lru_cache::state::{age, Dependency};
use crate::async_lru_cache::step::{Action, Event, Step};
use crate::async_lru_cache::write_back::DependencyStep;
use std::hash::Hash;
use std::sync::Arc;
use vstd::prelude::*;

verus! {

/// A step of retrieving an entry is what the laws take it for, and leaves the cache well-formed.
pub proof fn law_get_step<K: Copy + Eq + Hash, V, D: ?Sized, E>(
    machine: GetOrInsert<K, V, D>,
    event: Event<V, D, E>,
)
    ensures
        forall|cache: &mut AsyncLruCache<K, V, D>, step: GetOrInsertStep<K, V, D, E>| #[trigger]
            call_ensures(GetOrInsert::<K, V, D>::step::<E>, (machine, cache, event), step) ==> {
                &&& final(cache).wf()
                &&& machine.steps(cache@, event, final(cache)@, step)
                &&& step matches Step::Wait { next, action } ==> next.fits(final(cache)@)
            },
{
}

/// A step of inserting an object is what the laws take it for, and leaves the cache well-formed.
pub proof fn law_insert_step<K: Copy + Eq + Hash, V, D: ?Sized, E>(
    machine: Insert<K, V, D>,
    event: Event<V, D, E>,
)
    ensures
        forall|cache: &mut AsyncLruCache<K, V, D>, step: InsertStep<K, V, D, E>| #[trigger]
            call_ensures(Insert::<K, V, D>::step::<E>, (machine, cache, event), step) ==> {
                &&& final(cache).wf()
                &&& machine.steps(cache@, event, final(cache)@, step)
                &&& step matches Step::Wait { next, action } ==> next.fits(final(cache)@)
            },
{
}

/// A step of flushing the cache is what the laws take it for, and leaves the cache well-formed.
pub proof fn law_flush_step<K: Copy + Eq + Hash, V, D: ?Sized, E>(
    machine: Flush<D, E>,
    event: Event<V, D, E>,
)
    ensures
        forall|cache: &mut AsyncLruCache<K, V, D>, step: FlushStep<K, V, D, E>| #[trigger]
            call_ensures(Flush::<D, E>::step::<K, V>, (machine, cache, event), step) ==> {
                &&& final(cache).wf()
                &&& machine.steps(cache@, event, final(cache)@, step)
                &&& step matches Step::Wait { next, action } ==> next.fits(final(cache)@)
            },
{
}

/// A step of invalidating the cache is what the laws take it for, and leaves the cache well-formed.
pub proof fn law_invalidate_step<K: Copy + Eq + Hash, V, D: ?Sized, E>(
    machine: Invalidate<K>,
    event: Event<V, D, E>,
)
    ensures
        forall|cache: &mut AsyncLruCache<K, V, D>, step: InvalidateStep<K, V, D, E>| #[trigger]
            call_ensures(Invalidate::<K>::step::<V, D, E>, (machine, cache, event), step) ==> {
                &&& final(cache).wf()
                &&& machine.steps(cache@, final(cache)@, step)
                &&& step matches Step::Wait { next, action } ==> next.fits(final(cache)@)
            },
{
}

/// A step of setting up a dependency is what the laws take it for, and leaves the cache well-
/// formed.
pub proof fn law_depend_on_step<K: Copy + Eq + Hash, V, D: ?Sized, E>(
    machine: DependOn<D>,
    event: Event<V, D, E>,
)
    ensures
        forall|cache: &mut AsyncLruCache<K, V, D>, step: DependOnStep<K, V, D, E>| #[trigger]
            call_ensures(DependOn::<D>::step::<K, V, E>, (machine, cache, event), step) ==> {
                &&& final(cache).wf()
                &&& machine.steps(cache@, event, final(cache)@, step)
                &&& step matches Step::Wait { next, action } ==> next.fits(final(cache)@)
            },
{
}

/// A step of making room is what the laws take it for, and leaves the cache well-formed.
pub proof fn law_making_room_step<K: Copy + Eq + Hash, V, D: ?Sized, E>(
    machine: EnsureFreeEntry<K, V, D>,
    event: Event<V, D, E>,
)
    ensures
        forall|cache: &mut AsyncLruCache<K, V, D>, step: EnsureFreeEntryStep<K, V, D, E>| #[trigger]
            call_ensures(EnsureFreeEntry::<K, V, D>::step::<E>, (machine, cache, event), step) ==> {
                &&& final(cache).wf()
                &&& machine.steps(cache@, event, final(cache)@, step)
                &&& step matches Step::Wait { next, action } ==> next.fits(final(cache)@)
            },
{
}

/// Making room starts as the laws take it to.
pub proof fn law_making_room_starts<K: Copy + Eq + Hash, V, D: ?Sized, E>()
    ensures
        forall|cache: &mut AsyncLruCache<K, V, D>, step: EnsureFreeEntryStep<K, V, D, E>| #[trigger]
            call_ensures(AsyncLruCache::<K, V, D>::ensure_free_entry::<E>, (cache,), step) ==> {
                &&& final(cache).wf()
                &&& starts_making_room(cache@, final(cache)@, step)
            },
{
}

/// Every operation starts by asking for a lock, and for which: retrieval for the shared one on the
/// map, insertion and invalidation for the exclusive one, and the others for that on the
/// dependencies.
pub proof fn law_operations_start<K: Copy + Eq + Hash, V, D: ?Sized, E>(
    cache: &AsyncLruCache<K, V, D>,
    key: K,
    value: Arc<V>,
    id: usize,
    other: Dependency<D>,
)
    ensures
        forall|step: GetOrInsertStep<K, V, D, E>| #[trigger]
            call_ensures(AsyncLruCache::<K, V, D>::get_or_insert::<E>, (cache, key), step)
                ==> step.waits(GetOrInsert::LockingShared { key }, Action::LockMapShared),
        forall|step: InsertStep<K, V, D, E>| #[trigger]
            call_ensures(AsyncLruCache::<K, V, D>::insert::<E>, (cache, key, value), step)
                ==> step.waits(Insert::LockingMap { key, value }, Action::LockMapExclusive),
        forall|step: FlushStep<K, V, D, E>| #[trigger]
            call_ensures(AsyncLruCache::<K, V, D>::flush::<E>, (cache,), step) ==> step.waits(
                Flush::LockingDependencies,
                Action::LockDependencies,
            ),
        forall|step: InvalidateStep<K, V, D, E>| #[trigger]
            call_ensures(AsyncLruCache::<K, V, D>::invalidate::<E>, (cache,), step) ==> step.waits(
                Invalidate::LockingMap,
                Action::LockMapExclusive,
            ),
        forall|step: DependOnStep<K, V, D, E>| #[trigger]
            call_ensures(AsyncLruCache::<K, V, D>::depend_on::<E>, (cache, id, other), step)
                ==> step.waits(
                DependOn { id, other, phase: DependOnPhase::LockingDependencies },
                Action::LockDependencies,
            ),
{
}

/// A new cache is empty, depends on nothing, and has the given limit; how many entries there are,
/// and whether that is as many as the limit allows, is told as it is.
pub proof fn law_new_and_size<K: Copy + Eq + Hash, V, D: ?Sized>(
    size: usize,
    cache: &AsyncLruCache<K, V, D>,
)
    ensures
        forall|made: AsyncLruCache<K, V, D>| #[trigger]
            call_ensures(AsyncLruCache::<K, V, D>::new, (size,), made) ==> {
                &&& made.wf()
                &&& made@.entries.is_empty()
                &&& made@.flush_before.len() == 0
                &&& made@.lru_timer == 0
                &&& made@.limit == size
            },
        forall|n: usize| #[trigger]
            call_ensures(AsyncLruCache::<K, V, D>::len, (cache,), n) ==> n == cache@.entries.len(),
        forall|full: bool| #[trigger]
            call_ensures(AsyncLruCache::<K, V, D>::is_full, (cache,), full) ==> full == (
            cache@.entries.len() >= cache@.limit),
        forall|list: Vec<Dependency<D>>| #[trigger]
            call_ensures(AsyncLruCache::<K, V, D>::dependencies, (cache,), list) ==> list@
                == cache@.flush_before,
{
}

/// Flushing the dependencies goes from the last to the first; each is off the list while it is
/// being flushed, and back at its end if that fails, and nothing else changes.
pub proof fn law_flush_dependencies<K: Copy + Eq + Hash, V, D: ?Sized, E>(
    last: Option<(Dependency<D>, Result<(), E>)>,
)
    ensures
        forall|cache: &mut AsyncLruCache<K, V, D>, step: DependencyStep<D, E>| #[trigger]
            call_ensures(AsyncLruCache::<K, V, D>::flush_dependencies::<E>, (cache, last), step)
                ==> {
                let list = cache@.flush_before;
                let left = final(cache)@.flush_before;
                &&& final(cache)@.entries == cache@.entries
                &&& final(cache)@.lent == cache@.lent
                &&& final(cache)@.lru_timer == cache@.lru_timer
                &&& final(cache)@.limit == cache@.limit
                &&& match step {
                    DependencyStep::Failed(error) => {
                        &&& last matches Some((dependency, Err(cause)))
                        &&& error == cause
                        &&& left == list.push(dependency)
                    },
                    DependencyStep::Flush(dependency) => {
                        &&& !(last matches Some((_, Err(_))))
                        &&& list == left.push(dependency)
                    },
                    DependencyStep::Flushed => {
                        &&& !(last matches Some((_, Err(_))))
                        &&& list.len() == 0
                        &&& left.len() == 0
                    },
                }
            },
{
    assert forall|cache: &mut AsyncLruCache<K, V, D>, step: DependencyStep<D, E>| #[trigger]
        call_ensures(AsyncLruCache::<K, V, D>::flush_dependencies::<E>, (cache, last), step)
            && step is Flush implies cache@.flush_before == final(cache)@.flush_before.push(
        step->Flush_0,
    ) by {
        let list = cache@.flush_before;
        assert(list == list.drop_last().push(list.last()));
    }
}

/// How many accesses ago the one with the timestamp `last_used` was, modulo a turn of the counter.
pub open spec fn accesses_ago(now: usize, last_used: usize) -> int {
    (now - last_used) % (usize::MAX + 1)
}

/// The entry that is chosen for eviction is one that nothing else holds on to, and none of those
/// was accessed longer ago; none is chosen only if all are in use, or if there is a weak reference
/// to one that is not.
pub proof fn law_chosen_victim<K: Copy>(seen: &Vec<Observation<K>>, now: usize, victim: Victim<K>)
    requires
        call_ensures(choose_victim::<K>, (seen, now), victim),
    ensures
        match victim {
            Victim::Entry(key) => exists|i: int|
                {
                    &&& 0 <= i < seen@.len()
                    &&& (#[trigger] seen@[i]).key == key
                    &&& seen@[i].strong_count == 1
                    &&& forall|j: int|
                        0 <= j < seen@.len() && (#[trigger] seen@[j]).strong_count == 1 ==> {
                            &&& seen@[j].weak_count == 0
                            &&& accesses_ago(now, seen@[j].last_used) <= accesses_ago(
                                now,
                                seen@[i].last_used,
                            )
                        }
                },
            Victim::Nothing => forall|j: int|
                0 <= j < seen@.len() ==> (#[trigger] seen@[j]).strong_count != 1,
            Victim::WeaklyReferenced(key) => exists|i: int|
                {
                    &&& 0 <= i < seen@.len()
                    &&& (#[trigger] seen@[i]).key == key
                    &&& seen@[i].strong_count == 1
                    &&& seen@[i].weak_count != 0
                },
        },
{
    match victim {
        Victim::Entry(key) => {
            let i = choose|i: int| #[trigger]
                oldest_unused(seen@, now, i) && seen@[i].key == key;
            lemma_accesses_ago(now, seen@[i].last_used);
            assert forall|j: int|
                0 <= j < seen@.len() && (#[trigger] seen@[j]).strong_count == 1 implies {
                &&& seen@[j].weak_count == 0
                &&& accesses_ago(now, seen@[j].last_used) <= accesses_ago(now, seen@[i].last_used)
            } by {
                assert(!weakly_referenced(seen@, j));
                assert(seen@[j].unused());
                lemma_accesses_ago(now, seen@[j].last_used);
            }
            assert(seen@[i].key == key);
        },
        Victim::Nothing => {
            assert forall|j: int| 0 <= j < seen@.len() implies (
            #[trigger] seen@[j]).strong_count != 1 by {
                assert(!seen@[j].unused());
            }
        },
        Victim::WeaklyReferenced(key) => {
            let i = choose|i: int| #[trigger]
                weakly_referenced(seen@, i) && seen@[i].key == key && forall|j: int|
                    j < i ==> !weakly_referenced(seen@, j);
            assert(seen@[i].key == key);
        },
    }
}

/// An entry's age is how many accesses ago its last one was, modulo a turn of the counter.
proof fn lemma_accesses_ago(now: usize, last_used: usize)
    ensures
        accesses_ago(now, last_used) == age(now, last_used),
{
    let turn = usize::MAX + 1;
    if last_used <= now {
        vstd::arithmetic::div_mod::lemma_small_mod((now - last_used) as nat, turn as nat);
    } else {
        vstd::arithmetic::div_mod::lemma_fundamental_div_mod_converse(
            now - last_used,
            turn,
            -1,
            now - last_used + turn,
        );
    }
}

/// Evicting by what was observed takes the entry that was chosen out of the cache, as it was, and
/// changes nothing else; it fails if none was chosen.
pub proof fn law_evict<K: Copy + Eq + Hash, V, D: ?Sized, E>(seen: &Vec<Observation<K>>)
    ensures
        forall|cache: &mut AsyncLruCache<K, V, D>, step: EnsureFreeEntryStep<K, V, D, E>| #[trigger]
            call_ensures(AsyncLruCache::<K, V, D>::evict::<E>, (cache, seen), step) ==> match step {
                Step::Wait { next, action } => {
                    &&& action is LockDependencies
                    &&& cache@.observed_as(seen@) ==> cache@.entries.contains_key(next.key)
                    &&& next.entry == cache@.entries[next.key]
                    &&& final(cache)@ == cache@.without(next.key)
                    &&& exists|i: int|
                        0 <= i < seen@.len() && (#[trigger] seen@[i]).key == next.key
                            && seen@[i].strong_count == 1
                },
                Step::Done(result) => result is Err && final(cache)@ == cache@,
            },
{
    assert forall|cache: &mut AsyncLruCache<K, V, D>, step: EnsureFreeEntryStep<K, V, D, E>|
        #[trigger]
        call_ensures(AsyncLruCache::<K, V, D>::evict::<E>, (cache, seen), step)
            && step is Wait implies (exists|i: int|
        0 <= i < seen@.len() && (#[trigger] seen@[i]).key == step->next.key
            && seen@[i].strong_count == 1) && (cache@.observed_as(seen@)
        ==> cache@.entries.contains_key(step->next.key)) by {
        let i = choose|i: int| #[trigger]
            oldest_unused(seen@, cache@.lru_timer, i) && seen@[i].key == step->next.key;
        assert(seen@[i].unused());
        assert(seen@[i].key == step->next.key);
    }
}

/// An object that was unwrapped is handed to the back end, and one that was not goes back under its
/// key, as last accessed when it was; nothing else changes.
pub proof fn law_settle<K: Copy + Eq + Hash, V, D: ?Sized>(
    key: K,
    last_used: usize,
    unwrapped: Result<V, Arc<V>>,
)
    ensures
        forall|cache: &mut AsyncLruCache<K, V, D>, action: Action<K, V, D>| #[trigger]
            call_ensures(
                AsyncLruCache::<K, V, D>::settle,
                (cache, key, last_used, unwrapped),
                action,
            ) ==> {
                &&& final(cache)@.flush_before == cache@.flush_before
                &&& final(cache)@.lru_timer == cache@.lru_timer
                &&& final(cache)@.limit == cache@.limit
                &&& match unwrapped {
                    Ok(object) => {
                        &&& action == Action::<K, V, D>::Evict { key, object }
                        &&& final(cache)@.entries == cache@.entries
                    },
                    Err(object) => {
                        &&& action == Action::<K, V, D>::Retain { key }
                        &&& final(cache)@.entries == cache@.entries.insert(
                            key,
                            AsyncLruCacheEntry { value: Some(object), last_used },
                        )
                    },
                }
            },
{
}

/// The search for a circle starts with the given cache, and ends with the answer, whatever the
/// dependencies of the caches that were not visited are.
pub proof fn law_search<K, V, D: ?Sized>(
    check: CheckCircular<D>,
    dependencies: Vec<Dependency<D>>,
    step: CheckCircularStep<K, V, D>,
    graph: Graph,
    origin: Dependency<D>,
    target: usize,
)
    requires
        call_ensures(CheckCircular::<D>::step::<K, V>, (check, dependencies), step),
        agrees(graph, check.learned(dependencies@)),
    ensures
        step matches Step::Done(found) ==> found == depends(graph, check.origin(), check.target()),
        step matches Step::Wait { next, action } ==> {
            &&& next.origin() == check.origin()
            &&& next.target() == check.target()
            &&& action == Action::<K, V, D>::Visit(next.current())
            &&& !check.learned(dependencies@).contains_key(next.current().id)
            &&& depends(graph, check.origin(), next.current().id)
        },
        forall|start: CheckCircularStep<K, V, D>| #[trigger]
            call_ensures(CheckCircular::<D>::start::<K, V>, (origin, target), start) ==> {
                &&& start is Wait
                &&& start->action == Action::<K, V, D>::Visit(origin)
                &&& start->next.origin() == origin.id
                &&& start->next.target() == target
                &&& start->next.known() == Map::<usize, Set<usize>>::empty()
            },
{
    if let Step::Wait { next, action } = step {
        let known = check.learned(dependencies@);
        crate::async_lru_cache::graph::lemma_depends_monotonic(
            known,
            graph,
            check.origin(),
            next.current().id,
        );
    }
}

} // verus!
