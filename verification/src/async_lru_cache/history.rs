//! In which order entries were accessed, and what that means for eviction.

use crate::async_lru_cache::depend_on::{DependOn, DependOnStep};
use crate::async_lru_cache::entry::{counted, unheld, AsyncLruCacheEntry, Observation};
use crate::async_lru_cache::eviction::{
    evicts, evicts_victim, is_victim, oldest_unused, starts_making_room, EnsureFreeEntry,
    EnsureFreeEntryStep, Victim,
};
use crate::async_lru_cache::eviction_laws::{
    accessed_apart, law_evicts_oldest, law_unused_makes_room, lemma_starting,
};
use crate::async_lru_cache::flush::{Flush, FlushStep};
use crate::async_lru_cache::get_or_insert::{caches_after, GetOrInsert, GetOrInsertStep};
use crate::async_lru_cache::insert::{stores_after, Insert, InsertStep};
use crate::async_lru_cache::invalidate::{Invalidate, InvalidateStep};
use crate::async_lru_cache::laws::law_invalidate_only_removes;
use crate::async_lru_cache::state::{age, tick, CacheState};
use crate::async_lru_cache::step::{Event, Step};
use std::sync::Arc;
use vstd::arithmetic::div_mod::{
    lemma_fundamental_div_mod, lemma_fundamental_div_mod_converse, lemma_small_mod,
    lemma_sub_mod_noop,
};
use vstd::prelude::*;

verus! {

/// When, of all accesses to the cache, the last one to `key` was; negative if there was none.
pub open spec fn last_access<K>(history: Seq<K>, key: K) -> int
    decreases history.len(),
{
    if history.len() == 0 {
        -1
    } else if history.last() == key {
        history.len() - 1
    } else {
        last_access(history.drop_last(), key)
    }
}

/// The timestamp that the access after `n` others gets.
pub open spec fn timestamp(n: int) -> usize {
    (n % (usize::MAX + 1)) as usize
}

/// The entry under `key` has the timestamp of its last access.
pub open spec fn recorded<K, V>(history: Seq<K>, key: K, entry: AsyncLruCacheEntry<V>) -> bool {
    &&& last_access(history, key) >= 0
    &&& entry.last_used == timestamp(last_access(history, key))
}

/// All timestamps in the cache are right for these accesses, one after the other.
pub open spec fn records<K, V, D: ?Sized>(cache: CacheState<K, V, D>, history: Seq<K>) -> bool {
    &&& cache.lru_timer == timestamp(history.len() as int)
    &&& forall|k: K| #[trigger]
        cache.entries.contains_key(k) ==> recorded(history, k, cache.entries[k])
}

/// The last access to each entry is less than a full turn of the counter ago.
pub open spec fn within_a_turn<K, V, D: ?Sized>(
    cache: CacheState<K, V, D>,
    history: Seq<K>,
) -> bool {
    forall|k: K| #[trigger]
        cache.entries.contains_key(k) ==> history.len() - last_access(history, k) <= usize::MAX
}

/// A further access is the last one to its key, and no other key's.
proof fn lemma_last_access_push<K>(history: Seq<K>, key: K, other: K)
    ensures
        last_access(history.push(key), key) == history.len(),
        other != key ==> last_access(history.push(key), other) == last_access(history, other),
        -1 <= last_access(history, other) < history.len(),
    decreases history.len(),
{
    assert(history.push(key).drop_last() == history);
    if history.len() > 0 {
        lemma_last_access_push(history.drop_last(), history.last(), other);
        assert(history.drop_last().push(history.last()) == history);
    }
}

/// Keys have different last accesses.
proof fn lemma_last_accesses_differ<K>(history: Seq<K>, a: K, b: K)
    requires
        a != b,
        last_access(history, a) >= 0,
        last_access(history, b) >= 0,
    ensures
        last_access(history, a) != last_access(history, b),
    decreases history.len(),
{
    if history.len() > 0 {
        lemma_last_access_push(history.drop_last(), history.last(), a);
        lemma_last_access_push(history.drop_last(), history.last(), b);
        if history.last() != a && history.last() != b {
            lemma_last_accesses_differ(history.drop_last(), a, b);
        }
    }
}

/// The counter goes on from one timestamp to the next.
proof fn lemma_tick(n: int)
    requires
        n >= 0,
    ensures
        tick(timestamp(n)) == timestamp(n + 1),
{
    let turn = usize::MAX + 1;
    let q = n / turn;
    let r = n % turn;
    lemma_fundamental_div_mod(n, turn);
    if r == usize::MAX {
        assert(n + 1 == (q + 1) * turn) by (nonlinear_arith)
            requires
                n == turn * q + r,
                r == turn - 1,
        ;
        lemma_fundamental_div_mod_converse(n + 1, turn, q + 1, 0);
    } else {
        assert(n + 1 == q * turn + (r + 1)) by (nonlinear_arith)
            requires
                n == turn * q + r,
        ;
        lemma_fundamental_div_mod_converse(n + 1, turn, q, r + 1);
    }
}

/// Within a turn of the counter, an entry's age is how many accesses ago its last one was.
proof fn lemma_age(n: int, i: int)
    requires
        0 <= i < n,
        n - i <= usize::MAX,
    ensures
        age(timestamp(n), timestamp(i)) == n - i,
{
    let turn = usize::MAX + 1;
    let difference = n % turn - i % turn;
    lemma_sub_mod_noop(n, i, turn);
    lemma_small_mod((n - i) as nat, turn as nat);
    if difference >= 0 {
        lemma_small_mod(difference as nat, turn as nat);
    } else {
        lemma_fundamental_div_mod_converse(difference, turn, -1, difference + turn);
    }
}

/// Nothing was accessed in a new cache.
pub proof fn law_new_records_nothing<K, V, D: ?Sized>(limit: usize)
    ensures
        records(CacheState::<K, V, D>::empty(limit), Seq::empty()),
{
    lemma_small_mod(0, (usize::MAX + 1) as nat);
}

/// Accessing an entry, or putting an object into the cache, is recorded as the last access.
pub proof fn law_access_is_recorded<K, V, D: ?Sized>(
    cache: CacheState<K, V, D>,
    history: Seq<K>,
    key: K,
    value: Arc<V>,
)
    requires
        records(cache, history),
    ensures
        records(cache.touched(key), history.push(key)),
        records(cache.stored(key, value), history.push(key)),
{
    lemma_tick(history.len() as int);
    assert forall|k: K| #[trigger] cache.stored(key, value).entries.contains_key(k) implies recorded(
        history.push(key),
        k,
        cache.stored(key, value).entries[k],
    ) && recorded(history.push(key), k, cache.touched(key).entries[k]) by {
        lemma_last_access_push(history, key, k);
        if k != key {
            assert(cache.entries.contains_key(k));
        }
    }
    assert forall|k: K| #[trigger] cache.touched(key).entries.contains_key(k) implies recorded(
        history.push(key),
        k,
        cache.touched(key).entries[k],
    ) by {
        assert(cache.stored(key, value).entries.contains_key(k));
    }
}

/// Making room is no access.
pub proof fn law_making_room_is_no_access<K, V, D: ?Sized, E>(
    eviction: EnsureFreeEntry<K, V, D>,
    before: CacheState<K, V, D>,
    history: Seq<K>,
    event: Event<V, D, E>,
    after: CacheState<K, V, D>,
    step: EnsureFreeEntryStep<K, V, D, E>,
)
    requires
        eviction.fits(before),
        records(before, history),
        recorded(history, eviction.key, eviction.entry),
        eviction.steps(before, event, after, step),
    ensures
        records(after, history),
        step matches Step::Wait { next, action } ==> recorded(history, next.key, next.entry),
{
    let (flush, flush_before) = eviction.write_back_after(before.flush_before, event);
    if flush matches Step::Done(Ok(_)) {
        lemma_starting_is_no_access(before.depending_on(flush_before), history, after, step);
    }
}

/// Starting to make room is no access.
proof fn lemma_starting_is_no_access<K, V, D: ?Sized, E>(
    before: CacheState<K, V, D>,
    history: Seq<K>,
    after: CacheState<K, V, D>,
    step: EnsureFreeEntryStep<K, V, D, E>,
)
    requires
        records(before, history),
        starts_making_room(before, after, step),
    ensures
        records(after, history),
        step matches Step::Wait { next, action } ==> recorded(history, next.key, next.entry),
{
    lemma_starting(before, after, step);
}

/// Retrieving an entry is recorded as the last access when it succeeds, and no access before that
/// or if it fails.
pub proof fn law_get_is_recorded<K, V, D: ?Sized, E>(
    machine: GetOrInsert<K, V, D>,
    key: K,
    before: CacheState<K, V, D>,
    history: Seq<K>,
    event: Event<V, D, E>,
    after: CacheState<K, V, D>,
    step: GetOrInsertStep<K, V, D, E>,
)
    requires
        machine.for_key(key),
        machine.fits(before),
        machine.awaits(event),
        machine.steps(before, event, after, step),
        records(before, history),
        machine matches GetOrInsert::MakingRoom { key: _, value: _, eviction } ==> recorded(
            history,
            eviction.key,
            eviction.entry,
        ),
    ensures
        match step {
            Step::Done(Ok(_)) => records(after, history.push(key)),
            _ => records(after, history),
        },
        step matches Step::Wait {
            next: GetOrInsert::MakingRoom { key: _, value: _, eviction },
            action,
        } ==> recorded(history, eviction.key, eviction.entry),
{
    match machine {
        GetOrInsert::LockingShared { .. } | GetOrInsert::LockingExclusive { .. } => {
            law_access_is_recorded(before, history, key, before.object(key));
        },
        GetOrInsert::Loading { .. } => {
            if let Ok(object) = event->Loaded_0 {
                let (value, room, made_room) = choose|
                    value: Arc<V>,
                    room: CacheState<K, V, D>,
                    made_room: EnsureFreeEntryStep<K, V, D, E>,
                |
                    {
                        &&& *value == object
                        &&& starts_making_room(before, room, made_room)
                        &&& #[trigger] caches_after(key, value, room, made_room, after, step)
                    };
                lemma_starting_is_no_access(before, history, room, made_room);
                law_access_is_recorded(room, history, key, value);
            }
        },
        GetOrInsert::MakingRoom { key: _, value, eviction } => {
            let (room, made_room) = choose|
                room: CacheState<K, V, D>,
                made_room: EnsureFreeEntryStep<K, V, D, E>,
            | #[trigger]
                eviction.steps(before, event, room, made_room) && caches_after(
                    key,
                    value,
                    room,
                    made_room,
                    after,
                    step,
                );
            law_making_room_is_no_access(eviction, before, history, event, room, made_room);
            law_access_is_recorded(room, history, key, value);
        },
    }
}

/// Inserting an object is recorded as the last access: where there is an entry under the key from
/// the start, and else when it succeeds.
pub proof fn law_insert_is_recorded<K, V, D: ?Sized, E>(
    machine: Insert<K, V, D>,
    key: K,
    value: Arc<V>,
    before: CacheState<K, V, D>,
    history: Seq<K>,
    event: Event<V, D, E>,
    after: CacheState<K, V, D>,
    step: InsertStep<K, V, D, E>,
)
    requires
        machine.for_object(key, value),
        machine.fits(before),
        machine.awaits(event),
        machine.steps(before, event, after, step),
        records(before, history),
        machine matches Insert::MakingRoom { key: _, value: _, eviction } ==> recorded(
            history,
            eviction.key,
            eviction.entry,
        ),
    ensures
        if machine is LockingMap && before.entries.contains_key(key) {
            records(after, history.push(key))
        } else if !(machine is Replacing) && step.ends(Ok(())) {
            records(after, history.push(key))
        } else {
            records(after, history)
        },
        step matches Step::Wait {
            next: Insert::MakingRoom { key: _, value: _, eviction },
            action,
        } ==> recorded(history, eviction.key, eviction.entry),
{
    match machine {
        Insert::LockingMap { .. } => {
            if before.entries.contains_key(key) {
                law_access_is_recorded(before, history, key, value);
            } else {
                let (room, made_room) = choose|
                    room: CacheState<K, V, D>,
                    made_room: EnsureFreeEntryStep<K, V, D, E>,
                | #[trigger]
                    starts_making_room(before, room, made_room) && stores_after(
                        key,
                        value,
                        room,
                        made_room,
                        after,
                        step,
                    );
                lemma_starting_is_no_access(before, history, room, made_room);
                law_access_is_recorded(room, history, key, value);
            }
        },
        Insert::Replacing { .. } => {
            assert(before.entries.contains_key(key));
        },
        Insert::MakingRoom { key: _, value: _, eviction } => {
            let (room, made_room) = choose|
                room: CacheState<K, V, D>,
                made_room: EnsureFreeEntryStep<K, V, D, E>,
            | #[trigger]
                eviction.steps(before, event, room, made_room) && stores_after(
                    key,
                    value,
                    room,
                    made_room,
                    after,
                    step,
                );
            law_making_room_is_no_access(eviction, before, history, event, room, made_room);
            law_access_is_recorded(room, history, key, value);
        },
    }
}

/// Flushing the cache is no access.
pub proof fn law_flush_is_no_access<K, V, D: ?Sized, E>(
    machine: Flush<D, E>,
    before: CacheState<K, V, D>,
    history: Seq<K>,
    event: Event<V, D, E>,
    after: CacheState<K, V, D>,
    step: FlushStep<K, V, D, E>,
)
    requires
        machine.steps(before, event, after, step),
        records(before, history),
    ensures
        records(after, history),
{
}

/// Invalidating the cache is no access.
pub proof fn law_invalidate_is_no_access<K, V, D: ?Sized, E>(
    machine: Invalidate<K>,
    before: CacheState<K, V, D>,
    history: Seq<K>,
    after: CacheState<K, V, D>,
    step: InvalidateStep<K, V, D, E>,
)
    requires
        machine.steps(before, after, step),
        records(before, history),
    ensures
        records(after, history),
{
    law_invalidate_only_removes(machine, before, after, step);
}

/// Setting up a dependency is no access.
pub proof fn law_depend_on_is_no_access<K, V, D: ?Sized, E>(
    machine: DependOn<D>,
    before: CacheState<K, V, D>,
    history: Seq<K>,
    event: Event<V, D, E>,
    after: CacheState<K, V, D>,
    step: DependOnStep<K, V, D, E>,
)
    requires
        machine.steps(before, event, after, step),
        records(before, history),
    ensures
        records(after, history),
{
}

/// Within a turn of the counter, no two entries have the same timestamp.
pub proof fn law_timestamps_are_apart<K, V, D: ?Sized>(
    cache: CacheState<K, V, D>,
    history: Seq<K>,
)
    requires
        records(cache, history),
        within_a_turn(cache, history),
    ensures
        accessed_apart(cache),
{
    assert forall|j: K, k: K| #[trigger]
        cache.entries.contains_key(j) && #[trigger] cache.entries.contains_key(k) && j
            != k implies cache.entries[j].last_used != cache.entries[k].last_used by {
        lemma_last_access_push(history, j, j);
        lemma_last_access_push(history, k, k);
        lemma_last_accesses_differ(history, j, k);
        lemma_age(history.len() as int, last_access(history, j));
        lemma_age(history.len() as int, last_access(history, k));
    }
}

/// Eviction removes the least recently used of the entries that are not in use: the last access
/// to every other one came later.  This holds however often the counter has wrapped around, as
/// long as each entry was accessed within a turn of it.
pub proof fn law_evicts_least_recently_used<K, V, D: ?Sized>(
    cache: CacheState<K, V, D>,
    history: Seq<K>,
    seen: Seq<Observation<K>>,
    key: K,
    i: int,
)
    requires
        records(cache, history),
        within_a_turn(cache, history),
        cache.observed_as(seen),
        is_victim(seen, cache.lru_timer, Victim::Entry(key)),
        0 <= i < seen.len(),
        seen[i].unused(),
        seen[i].key != key,
    ensures
        last_access(history, key) < last_access(history, seen[i].key),
{
    let other = seen[i].key;
    let v = choose|v: int| #[trigger]
        oldest_unused(seen, cache.lru_timer, v) && seen[v].key == key;
    assert(cache.entries.contains_key(seen[v].key));
    assert(cache.entries.contains_key(other));
    law_timestamps_are_apart(cache, history);
    law_evicts_oldest(cache, seen, key, i);
    lemma_last_access_push(history, key, key);
    lemma_last_access_push(history, other, other);
    lemma_age(history.len() as int, last_access(history, key));
    lemma_age(history.len() as int, last_access(history, other));
}

/// In a full cache that nothing outside holds on to, making room evicts, of all entries, the one
/// whose last access lies furthest back.
pub proof fn law_furthest_back_is_evicted<K, V, D: ?Sized, E>(
    cache: CacheState<K, V, D>,
    history: Seq<K>,
    after: CacheState<K, V, D>,
    step: EnsureFreeEntryStep<K, V, D, E>,
)
    requires
        records(cache, history),
        within_a_turn(cache, history),
        !cache.entries.is_empty(),
        cache.entries.len() >= cache.limit,
        forall|k: K| #[trigger]
            cache.entries.contains_key(k) ==> unheld(cache.object(k), cache.lent[k]),
        starts_making_room(cache, after, step),
    ensures
        step matches Step::Wait { next, action } && {
            &&& cache.entries.contains_key(next.key)
            &&& after == cache.without(next.key)
            &&& forall|k: K| #[trigger]
                cache.entries.contains_key(k) && k != next.key ==> last_access(history, next.key)
                    < last_access(history, k)
        },
{
    let some = choose|k: K| cache.entries.contains_key(k);
    assert(cache.entries.contains_key(some)) by {
        if !cache.entries.contains_key(some) {
            assert(cache.entries.dom() =~= Set::empty());
            assert(cache.entries =~= Map::empty());
        }
    }
    law_unused_makes_room(cache, after, step, some);
    let seen = choose|seen: Seq<Observation<K>>| #[trigger]
        cache.observed_as(seen) && cache.counted_as(seen) && evicts(cache, seen, after, step);
    let victim = choose|victim: Victim<K>| #[trigger]
        is_victim(seen, cache.lru_timer, victim) && evicts_victim(cache, victim, after, step);
    let key = victim->Entry_0;
    lemma_starting(cache, after, step);
    assert forall|k: K| #[trigger]
        cache.entries.contains_key(k) && k != key implies last_access(history, key) < last_access(
        history,
        k,
    ) by {
        let i = choose|i: int| 0 <= i < seen.len() && (#[trigger] seen[i]).key == k;
        assert(counted(
            cache.object(seen[i].key),
            cache.lent[seen[i].key],
            seen[i].strong_count,
            seen[i].weak_count,
        ));
        assert(seen[i].unused());
        law_evicts_least_recently_used(cache, history, seen, key, i);
    }
}

/// When an entry was accessed last, and the cache is full and has room for more than one entry,
/// retrieving another one evicts the entry whose last access lies furthest back, and not the one
/// that was accessed last.
pub proof fn law_last_accessed_stays<K, V, D: ?Sized, E>(
    cache: CacheState<K, V, D>,
    history: Seq<K>,
    last: K,
    key: K,
    object: V,
    after: CacheState<K, V, D>,
    step: GetOrInsertStep<K, V, D, E>,
)
    requires
        cache.wf(),
        records(cache, history),
        within_a_turn(cache, history),
        history.len() > 0,
        history.last() == last,
        cache.entries.contains_key(last),
        cache.limit >= 2,
        cache.entries.len() == cache.limit,
        forall|k: K| #[trigger]
            cache.entries.contains_key(k) ==> unheld(cache.object(k), cache.lent[k]),
        !cache.entries.contains_key(key),
        (GetOrInsert::Loading { key }).steps(cache, Event::Loaded(Ok(object)), after, step),
    ensures
        after.entries.contains_key(last),
        after.entries[last] == cache.entries[last],
        step matches Step::Wait {
            next: GetOrInsert::MakingRoom { key: same_key, value, eviction },
            action,
        } && {
            &&& same_key == key
            &&& *value == object
            &&& eviction.key != last
            &&& cache.entries.contains_key(eviction.key)
            &&& after == cache.without(eviction.key)
            &&& forall|k: K| #[trigger]
                cache.entries.contains_key(k) && k != eviction.key ==> last_access(
                    history,
                    eviction.key,
                ) < last_access(history, k)
        },
{
    let (value, room, made_room) = choose|
        value: Arc<V>,
        room: CacheState<K, V, D>,
        made_room: EnsureFreeEntryStep<K, V, D, E>,
    |
        {
            &&& *value == object
            &&& starts_making_room(cache, room, made_room)
            &&& #[trigger] caches_after(key, value, room, made_room, after, step)
        };
    assert(!cache.entries.is_empty());
    law_furthest_back_is_evicted(cache, history, room, made_room);
    let victim = made_room->next.key;
    if victim == last {
        let others = cache.entries.dom().remove(last);
        assert(others.len() >= 1);
        let other = others.choose();
        assert(others.contains(other));
        assert(cache.entries.contains_key(other));
        lemma_last_access_push(history, other, other);
    }
}

} // verus!
