//! What making room promises.

use crate::async_lru_cache::entry::{counted, Observation};
use crate::async_lru_cache::error::CacheError;
use crate::async_lru_cache::eviction::{
    evicts, evicts_victim, is_victim, oldest_unused, starts_making_room, weakly_referenced,
    EnsureFreeEntry, EnsureFreeEntryStep, Victim,
};
use crate::async_lru_cache::state::{age, listed_once, CacheState};
use crate::async_lru_cache::step::{Event, Step};
use vstd::prelude::*;

verus! {

/// Starting to make room takes the victim, an entry of whose references just one was counted, out
/// of the cache, or changes nothing.
pub proof fn lemma_starting<K, V, D: ?Sized, E>(
    before: CacheState<K, V, D>,
    after: CacheState<K, V, D>,
    step: EnsureFreeEntryStep<K, V, D, E>,
)
    requires
        starts_making_room(before, after, step),
    ensures
        match step {
            Step::Wait { next, action } => {
                &&& before.entries.contains_key(next.key)
                &&& next.entry == before.entries[next.key]
                &&& counted(before.object(next.key), before.lent[next.key], 1, 0)
                &&& next.write_back is LockingDependencies
                &&& after == before.without(next.key)
                &&& after.entries.insert(next.key, next.entry) == before.entries
            },
            Step::Done(_) => after == before,
        },
{
    if before.entries.len() >= before.limit {
        let seen = choose|seen: Seq<Observation<K>>| #[trigger]
            before.observed_as(seen) && before.counted_as(seen) && evicts(
                before,
                seen,
                after,
                step,
            );
        let victim = choose|victim: Victim<K>| #[trigger]
            is_victim(seen, before.lru_timer, victim) && evicts_victim(before, victim, after, step);
        if let Victim::Entry(key) = victim {
            let v = choose|v: int| #[trigger]
                oldest_unused(seen, before.lru_timer, v) && seen[v].key == key;
            assert(before.entries.contains_key(seen[v].key));
            assert(!weakly_referenced(seen, v));
            assert(after.entries.insert(key, before.entries[key]) == before.entries);
        }
    }
}

/// What was observed settles which entry is evicted.
pub proof fn law_victim_is_unique<K>(
    seen: Seq<Observation<K>>,
    now: usize,
    one: Victim<K>,
    other: Victim<K>,
)
    requires
        is_victim(seen, now, one),
        is_victim(seen, now, other),
    ensures
        one == other,
{
    match (one, other) {
        (Victim::Entry(a), Victim::Entry(b)) => {
            let i = choose|i: int| #[trigger] oldest_unused(seen, now, i) && seen[i].key == a;
            let j = choose|j: int| #[trigger] oldest_unused(seen, now, j) && seen[j].key == b;
            assert(seen[i].unused() && seen[j].unused());
            assert(i == j);
        },
        (Victim::WeaklyReferenced(a), Victim::WeaklyReferenced(b)) => {
            let i = choose|i: int| #[trigger]
                weakly_referenced(seen, i) && seen[i].key == a && forall|j: int|
                    j < i ==> !weakly_referenced(seen, j);
            let j = choose|j: int| #[trigger]
                weakly_referenced(seen, j) && seen[j].key == b && forall|k: int|
                    k < j ==> !weakly_referenced(seen, k);
            assert(i == j);
        },
        (Victim::WeaklyReferenced(_), _) | (_, Victim::WeaklyReferenced(_)) => {},
        (Victim::Nothing, Victim::Entry(b)) => {
            let j = choose|j: int| #[trigger] oldest_unused(seen, now, j) && seen[j].key == b;
            assert(seen[j].unused());
        },
        (Victim::Entry(a), Victim::Nothing) => {
            let i = choose|i: int| #[trigger] oldest_unused(seen, now, i) && seen[i].key == a;
            assert(seen[i].unused());
        },
        (Victim::Nothing, Victim::Nothing) => {},
    }
}

/// Eviction removes the oldest of the entries that are not in use: of two that were not accessed
/// at the same time, the older one.
pub proof fn law_evicts_oldest<K, V, D: ?Sized>(
    cache: CacheState<K, V, D>,
    seen: Seq<Observation<K>>,
    key: K,
    i: int,
)
    requires
        cache.observed_as(seen),
        is_victim(seen, cache.lru_timer, Victim::Entry(key)),
        0 <= i < seen.len(),
        seen[i].unused(),
        cache.entries[seen[i].key].last_used != cache.entries[key].last_used,
    ensures
        cache.entries.contains_key(key),
        age(cache.lru_timer, cache.entries[seen[i].key].last_used) < age(
            cache.lru_timer,
            cache.entries[key].last_used,
        ),
{
    let v = choose|v: int| #[trigger]
        oldest_unused(seen, cache.lru_timer, v) && seen[v].key == key;
    assert(cache.entries.contains_key(seen[v].key));
    assert(cache.entries.contains_key(seen[i].key));
}

/// An entry is not evicted if no count of the references to its object finds just the one in the
/// cache.
pub proof fn law_in_use_is_not_evicted<K, V, D: ?Sized, E>(
    before: CacheState<K, V, D>,
    after: CacheState<K, V, D>,
    step: EnsureFreeEntryStep<K, V, D, E>,
    key: K,
)
    requires
        starts_making_room(before, after, step),
        before.entries.contains_key(key),
        forall|strong: usize, weak: usize| #[trigger]
            counted(before.object(key), before.lent[key], strong, weak) ==> strong != 1,
    ensures
        after.entries.contains_key(key),
        after.entries[key] == before.entries[key],
        step matches Step::Wait { next, action } ==> next.key != key,
{
    lemma_starting(before, after, step);
}

/// When all entries of a full cache are in use, making room fails and changes nothing.
pub proof fn law_full_of_entries_in_use<K, V, D: ?Sized, E>(
    before: CacheState<K, V, D>,
    after: CacheState<K, V, D>,
    step: EnsureFreeEntryStep<K, V, D, E>,
)
    requires
        before.entries.len() >= before.limit,
        forall|k: K, strong: usize, weak: usize|
            before.entries.contains_key(k) && #[trigger] counted(
                before.object(k),
                before.lent[k],
                strong,
                weak,
            ) ==> strong != 1,
        starts_making_room(before, after, step),
    ensures
        after == before,
        step.ends(Err(CacheError::EverythingInUse)),
{
    let seen = choose|seen: Seq<Observation<K>>| #[trigger]
        before.observed_as(seen) && before.counted_as(seen) && evicts(before, seen, after, step);
    assert forall|i: int| 0 <= i < seen.len() implies !(#[trigger] seen[i]).unused() by {
        assert(before.entries.contains_key(seen[i].key));
        assert(counted(
            before.object(seen[i].key),
            before.lent[seen[i].key],
            seen[i].strong_count,
            seen[i].weak_count,
        ));
    }
    let victim = choose|victim: Victim<K>| #[trigger]
        is_victim(seen, before.lru_timer, victim) && evicts_victim(before, victim, after, step);
    assert(is_victim(seen, before.lru_timer, Victim::<K>::Nothing));
    law_victim_is_unique(seen, before.lru_timer, victim, Victim::Nothing);
}

/// As long as there is an entry that is not in use, and no weak reference, a full cache has
/// something to evict.
pub proof fn law_unused_makes_room<K, V, D: ?Sized, E>(
    before: CacheState<K, V, D>,
    after: CacheState<K, V, D>,
    step: EnsureFreeEntryStep<K, V, D, E>,
    key: K,
)
    requires
        before.entries.len() >= before.limit,
        before.entries.contains_key(key),
        forall|strong: usize, weak: usize| #[trigger]
            counted(before.object(key), before.lent[key], strong, weak) ==> strong == 1,
        forall|k: K, strong: usize, weak: usize|
            before.entries.contains_key(k) && #[trigger] counted(
                before.object(k),
                before.lent[k],
                strong,
                weak,
            ) ==> weak == 0,
        starts_making_room(before, after, step),
    ensures
        step is Wait,
{
    let seen = choose|seen: Seq<Observation<K>>| #[trigger]
        before.observed_as(seen) && before.counted_as(seen) && evicts(before, seen, after, step);
    let victim = choose|victim: Victim<K>| #[trigger]
        is_victim(seen, before.lru_timer, victim) && evicts_victim(before, victim, after, step);
    let i = choose|i: int| 0 <= i < seen.len() && (#[trigger] seen[i]).key == key;
    assert(counted(
        before.object(seen[i].key),
        before.lent[seen[i].key],
        seen[i].strong_count,
        seen[i].weak_count,
    ));
    assert(seen[i].unused());
    if let Victim::WeaklyReferenced(other) = victim {
        let j = choose|j: int| #[trigger]
            weakly_referenced(seen, j) && seen[j].key == other && forall|k: int|
                k < j ==> !weakly_referenced(seen, k);
        assert(before.entries.contains_key(seen[j].key));
        assert(counted(
            before.object(seen[j].key),
            before.lent[seen[j].key],
            seen[j].strong_count,
            seen[j].weak_count,
        ));
    }
}

/// Evicting one entry always makes enough room.
pub proof fn law_one_eviction_is_enough<K, V, D: ?Sized, E>(
    eviction: EnsureFreeEntry<K, V, D>,
    before: CacheState<K, V, D>,
    after: CacheState<K, V, D>,
    step: EnsureFreeEntryStep<K, V, D, E>,
)
    requires
        eviction.fits(before),
        eviction.write_back is FlushingEntry,
        eviction.steps(before, Event::Flushed(Ok(())), after, step),
    ensures
        after == before,
        step.ends(Ok(())),
{
}

/// Making room goes on from `step`, which left the cache as `left`, to `next_step`, which leaves
/// it as `after`.  In between, other operations may turn `left` into `found`, as far as the locks
/// permit it.
pub open spec fn makes_room_from<K, V, D: ?Sized, E>(
    step: EnsureFreeEntryStep<K, V, D, E>,
    left: CacheState<K, V, D>,
    found: CacheState<K, V, D>,
    event: Event<V, D, E>,
    after: CacheState<K, V, D>,
    next_step: EnsureFreeEntryStep<K, V, D, E>,
) -> bool {
    &&& step matches Step::Wait { next, action: _ }
    &&& next.write_back.holds().permit(left, found)
    &&& next.write_back.awaits(event)
    &&& next.steps(found, event, after, next_step)
}

/// `steps` are all steps of making room in the cache `before` up to some point; each leaves the
/// cache as the same element of `left` says.
pub open spec fn is_run_of_making_room<K, V, D: ?Sized, E>(
    before: CacheState<K, V, D>,
    steps: Seq<EnsureFreeEntryStep<K, V, D, E>>,
    left: Seq<CacheState<K, V, D>>,
    found: Seq<CacheState<K, V, D>>,
    events: Seq<Event<V, D, E>>,
) -> bool {
    &&& steps.len() == left.len() == events.len() + 1
    &&& found.len() == events.len()
    &&& starts_making_room(before, left[0], steps[0])
    &&& forall|i: int|
        0 <= i < events.len() ==> #[trigger] makes_room_from(
            steps[i],
            left[i],
            found[i],
            events[i],
            left[i + 1],
            steps[i + 1],
        )
}

/// When making room fails, however far it got, every entry is in the cache as it was before; when
/// it succeeds, at most one entry is gone.
pub proof fn law_making_room_loses_nothing<K, V, D: ?Sized, E>(
    before: CacheState<K, V, D>,
    steps: Seq<EnsureFreeEntryStep<K, V, D, E>>,
    left: Seq<CacheState<K, V, D>>,
    found: Seq<CacheState<K, V, D>>,
    events: Seq<Event<V, D, E>>,
)
    requires
        before.wf(),
        is_run_of_making_room(before, steps, left, found, events),
    ensures
        left.last().lru_timer == before.lru_timer,
        left.last().limit == before.limit,
        listed_once(left.last().flush_before),
        match steps.last() {
            Step::Wait { next, action: _ } => {
                &&& next.fits(left.last())
                &&& before.entries == left.last().entries.insert(next.key, next.entry)
            },
            Step::Done(Ok(_)) => {
                &&& left.last().entries.len() < left.last().limit
                &&& left.last().entries == before.entries || exists|key: K|
                    left.last().entries == #[trigger] before.entries.remove(key)
            },
            Step::Done(Err(_)) => left.last().entries == before.entries,
        },
    decreases steps.len(),
{
    if events.len() == 0 {
        lemma_starting(before, left[0], steps[0]);
    } else {
        let n = events.len() - 1;
        assert(makes_room_from(steps[n], left[n], found[n], events[n], left[n + 1], steps[n + 1]));
        assert forall|i: int| 0 <= i < n implies #[trigger] makes_room_from(
            steps.drop_last()[i],
            left.drop_last()[i],
            found.drop_last()[i],
            events.drop_last()[i],
            left.drop_last()[i + 1],
            steps.drop_last()[i + 1],
        ) by {
            assert(makes_room_from(
                steps[i],
                left[i],
                found[i],
                events[i],
                left[i + 1],
                steps[i + 1],
            ));
        }
        law_making_room_loses_nothing(
            before,
            steps.drop_last(),
            left.drop_last(),
            found.drop_last(),
            events.drop_last(),
        );
        let eviction = steps[n]->next;
        assert(found[n].entries == left[n].entries);
        assert(before.entries.remove(eviction.key) == left[n].entries);
    }
}

/// A step of making room loses nothing but an entry that was flushed.
pub proof fn law_eviction_loses_nothing<K, V, D: ?Sized, E>(
    eviction: EnsureFreeEntry<K, V, D>,
    before: CacheState<K, V, D>,
    event: Event<V, D, E>,
    after: CacheState<K, V, D>,
    step: EnsureFreeEntryStep<K, V, D, E>,
)
    requires
        eviction.fits(before),
        eviction.steps(before, event, after, step),
    ensures
        ({
            let base = before.entries.insert(eviction.key, eviction.entry);
            match step {
                Step::Wait { next, action } => after.entries.insert(next.key, next.entry) == base,
                Step::Done(Ok(_)) => {
                    &&& eviction.write_back is FlushingEntry
                    &&& event->Flushed_0 is Ok
                    &&& after.entries == base.remove(eviction.key)
                },
                Step::Done(Err(_)) => after.entries == base,
            }
        }),
{
    let base = before.entries.insert(eviction.key, eviction.entry);
    assert(base.remove(eviction.key) == before.entries);
}

/// Both observations found the same numbers of references to each object.
pub open spec fn same_counts<K>(seen: Seq<Observation<K>>, again: Seq<Observation<K>>) -> bool {
    forall|i: int, j: int|
        0 <= i < seen.len() && 0 <= j < again.len() && (#[trigger] seen[i]).key == (
        #[trigger] again[j]).key ==> {
            &&& seen[i].strong_count == again[j].strong_count
            &&& seen[i].weak_count == again[j].weak_count
        }
}

/// No two entries were last accessed at the same time.
pub open spec fn accessed_apart<K, V, D: ?Sized>(cache: CacheState<K, V, D>) -> bool {
    forall|j: K, k: K| #[trigger]
        cache.entries.contains_key(j) && #[trigger] cache.entries.contains_key(k) && j != k
            ==> cache.entries[j].last_used != cache.entries[k].last_used
}

/// The order in which the entries are looked at does not matter for which one is evicted.
pub proof fn law_order_does_not_settle_victim<K, V, D: ?Sized>(
    cache: CacheState<K, V, D>,
    seen: Seq<Observation<K>>,
    again: Seq<Observation<K>>,
    key: K,
    victim: Victim<K>,
)
    requires
        accessed_apart(cache),
        cache.observed_as(seen),
        cache.observed_as(again),
        same_counts(seen, again),
        is_victim(seen, cache.lru_timer, Victim::Entry(key)),
        is_victim(again, cache.lru_timer, victim),
    ensures
        victim == Victim::Entry(key),
{
    let now = cache.lru_timer;
    let v = choose|v: int| #[trigger] oldest_unused(seen, now, v) && seen[v].key == key;
    assert(cache.entries.contains_key(seen[v].key));
    let w = choose|w: int| 0 <= w < again.len() && (#[trigger] again[w]).key == key;
    assert(again[w].unused());
    match victim {
        Victim::Nothing => {},
        Victim::WeaklyReferenced(other) => {
            let j = choose|j: int| #[trigger]
                weakly_referenced(again, j) && again[j].key == other && forall|k: int|
                    k < j ==> !weakly_referenced(again, k);
            assert(cache.entries.contains_key(again[j].key));
            let i = choose|i: int| 0 <= i < seen.len() && (#[trigger] seen[i]).key == other;
            assert(weakly_referenced(seen, i));
        },
        Victim::Entry(other) => {
            let j = choose|j: int| #[trigger] oldest_unused(again, now, j) && again[j].key == other;
            assert(cache.entries.contains_key(again[j].key));
            let i = choose|i: int| 0 <= i < seen.len() && (#[trigger] seen[i]).key == other;
            assert(seen[i].unused());
            assert(cache.entries.contains_key(seen[i].key));
            if other != key {
                law_evicts_oldest(cache, seen, key, i);
                law_evicts_oldest(cache, again, other, w);
            }
        },
    }
}

/// When an eviction failed, and nothing was accessed, taken or released since, the next attempt
/// starts just as the failed one did: with the same victim.
pub proof fn law_failed_eviction_is_tried_again<K, V, D: ?Sized, E>(
    before: CacheState<K, V, D>,
    seen: Seq<Observation<K>>,
    steps: Seq<EnsureFreeEntryStep<K, V, D, E>>,
    left: Seq<CacheState<K, V, D>>,
    found: Seq<CacheState<K, V, D>>,
    events: Seq<Event<V, D, E>>,
    later: CacheState<K, V, D>,
    again: Seq<Observation<K>>,
    after: CacheState<K, V, D>,
    step: EnsureFreeEntryStep<K, V, D, E>,
)
    requires
        before.wf(),
        accessed_apart(before),
        before.observed_as(seen),
        evicts(before, seen, left[0], steps[0]),
        steps[0] is Wait,
        is_run_of_making_room(before, steps, left, found, events),
        steps.last() matches Step::Done(Err(_)),
        later.entries == left.last().entries,
        later.lru_timer == left.last().lru_timer,
        later.observed_as(again),
        same_counts(seen, again),
        evicts(later, again, after, step),
    ensures
        step == steps[0],
        after.entries == left[0].entries,
{
    law_making_room_loses_nothing(before, steps, left, found, events);
    let now = before.lru_timer;
    let first = choose|victim: Victim<K>| #[trigger]
        is_victim(seen, now, victim) && evicts_victim(before, victim, left[0], steps[0]);
    let second = choose|victim: Victim<K>| #[trigger]
        is_victim(again, now, victim) && evicts_victim(later, victim, after, step);
    assert(before.observed_as(again));
    law_order_does_not_settle_victim(before, seen, again, first->Entry_0, second);
}

} // verus!
