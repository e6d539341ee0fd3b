//! What invalidating the cache promises from its start to its end.

use crate::async_lru_cache::dependency_laws::Happened;
use crate::async_lru_cache::entry::{tried, unheld};
use crate::async_lru_cache::error::CacheError;
use crate::async_lru_cache::invalidate::{
    invalidates_next, settles_next, Invalidate, InvalidateStep,
};
use crate::async_lru_cache::state::CacheState;
use crate::async_lru_cache::step::{Action, Event, Step};
use std::sync::Arc;
use vstd::prelude::*;

verus! {

/// One step of invalidating the cache.
pub type InvalidateHappened<K, V, D, E> = Happened<
    Invalidate<K>,
    InvalidateStep<K, V, D, E>,
    CacheState<K, V, D>,
    Event<V, D, E>,
>;

/// This can happen in the course of an invalidation.
pub open spec fn invalidate_happens<K, V, D: ?Sized, E>(h: InvalidateHappened<K, V, D, E>) -> bool {
    &&& h.before.wf()
    &&& h.machine.fits(h.before)
    &&& h.machine.awaits(h.event)
    &&& h.machine.steps(h.before, h.after, h.step)
}

/// `h` is the step before `next`.  In between, other operations may change the cache as far as the
/// locks permit.
pub open spec fn invalidate_goes_on<K, V, D: ?Sized, E>(
    h: InvalidateHappened<K, V, D, E>,
    next: InvalidateHappened<K, V, D, E>,
) -> bool {
    &&& h.step is Wait
    &&& next.machine == h.step->next
    &&& next.machine.holds().permit(h.after, next.before)
}

/// `run` is an invalidation up to some point.
pub open spec fn is_run_of_invalidate<K, V, D: ?Sized, E>(
    run: Seq<InvalidateHappened<K, V, D, E>>,
) -> bool {
    &&& run.len() > 0
    &&& run[0].machine is LockingMap
    &&& forall|i: int| 0 <= i < run.len() ==> invalidate_happens(#[trigger] run[i])
    &&& forall|i: int|
        0 <= i < run.len() - 1 ==> #[trigger] invalidate_goes_on(run[i], run[i + 1])
}

/// The step asks for `action`.
pub open spec fn asks_for<K, V, D: ?Sized, E>(
    h: InvalidateHappened<K, V, D, E>,
    action: Action<K, V, D>,
) -> bool {
    h.step is Wait && h.step->action == action
}

/// In the course of `run`, the object that was under `key` at its start was handed to the back
/// end.
pub open spec fn was_evicted<K, V, D: ?Sized, E>(
    run: Seq<InvalidateHappened<K, V, D, E>>,
    key: K,
) -> bool {
    exists|i: int|
        0 <= i < run.len() && asks_for(
            #[trigger] run[i],
            Action::Evict { key, object: *run[0].before.object(key) },
        )
}

/// In the course of `run`, the entry under `key` was retained.
pub open spec fn was_retained<K, V, D: ?Sized, E>(
    run: Seq<InvalidateHappened<K, V, D, E>>,
    key: K,
) -> bool {
    exists|i: int| 0 <= i < run.len() && asks_for(#[trigger] run[i], Action::Retain { key })
}

/// Trying to unwrap the object under `key` in the cache failed.
pub open spec fn could_not_be_unwrapped<K, V, D: ?Sized>(
    cache: CacheState<K, V, D>,
    key: K,
) -> bool {
    exists|unwrapped: Result<V, Arc<V>>| #[trigger]
        tried(cache.object(key), cache.lent[key], unwrapped) && unwrapped is Err
}

/// How far an invalidation got with all `keys`: the first `done` were dealt with, those `in_use`
/// were retained, and the rest is in the cache as it was.
spec fn got_to<K, V, D: ?Sized, E>(
    run: Seq<InvalidateHappened<K, V, D, E>>,
    keys: Seq<K>,
    done: int,
    in_use: Seq<K>,
    cache: CacheState<K, V, D>,
) -> bool {
    let base = run[0].before;
    &&& base.keyed_by(keys)
    &&& 0 <= done <= keys.len()
    &&& forall|j: int|
        0 <= j < done ==> was_evicted(run, #[trigger] keys[j]) || was_retained(run, keys[j])
    &&& forall|j: int|
        0 <= j < in_use.len() ==> {
            &&& was_retained(run, #[trigger] in_use[j])
            &&& base.entries.contains_key(in_use[j])
            &&& could_not_be_unwrapped(base, in_use[j])
        }
    &&& forall|j: int|
        done <= j < keys.len() ==> {
            &&& cache.entries[#[trigger] keys[j]] == base.entries[keys[j]]
            &&& cache.lent[keys[j]] == base.lent[keys[j]]
        }
}

/// Everything that was in the cache at the start of `run` was dealt with.
spec fn all_settled<K, V, D: ?Sized, E>(run: Seq<InvalidateHappened<K, V, D, E>>) -> bool {
    forall|k: K| #[trigger]
        run[0].before.entries.contains_key(k) ==> was_evicted(run, k) || was_retained(run, k)
}

/// What is true of a run after its last step.
spec fn stands<K, V, D: ?Sized, E>(run: Seq<InvalidateHappened<K, V, D, E>>) -> bool {
    let last = run[run.len() - 1];
    match last.step {
        Step::Wait { next: Invalidate::Evicting { keys, done, in_use }, action: _ } => got_to(
            run,
            keys@,
            done as int,
            in_use@,
            last.after,
        ),
        Step::Wait { next: Invalidate::LockingDependencies, action: _ } => all_settled(run),
        Step::Wait { next: Invalidate::LockingMap, action: _ } => false,
        Step::Done(Ok(_)) => all_settled(run),
        Step::Done(Err(error)) => {
            &&& all_settled(run)
            &&& error matches CacheError::StillInUse(left)
            &&& forall|j: int|
                0 <= j < left@.len() ==> {
                    &&& was_retained(run, #[trigger] left@[j])
                    &&& run[0].before.entries.contains_key(left@[j])
                    &&& could_not_be_unwrapped(run[0].before, left@[j])
                }
        },
    }
}

/// What was done with an entry in the course of a run was done in that of a longer one.
proof fn lemma_longer_run<K, V, D: ?Sized, E>(run: Seq<InvalidateHappened<K, V, D, E>>, key: K)
    requires
        run.len() > 1,
    ensures
        was_evicted(run.drop_last(), key) ==> was_evicted(run, key),
        was_retained(run.drop_last(), key) ==> was_retained(run, key),
{
    let earlier = run.drop_last();
    if was_evicted(earlier, key) {
        let i = choose|i: int|
            0 <= i < earlier.len() && asks_for(
                #[trigger] earlier[i],
                Action::Evict { key, object: *earlier[0].before.object(key) },
            );
        assert(run[i] == earlier[i]);
    }
    if was_retained(earlier, key) {
        let i = choose|i: int|
            0 <= i < earlier.len() && asks_for(#[trigger] earlier[i], Action::Retain { key });
        assert(run[i] == earlier[i]);
    }
}

/// Dealing with the next entry takes a run from one point to the next.
proof fn lemma_deals_with_next<K, V, D: ?Sized, E>(
    run: Seq<InvalidateHappened<K, V, D, E>>,
    keys: Seq<K>,
    done: int,
    in_use: Seq<K>,
)
    requires
        run.len() > 0,
        got_to(run, keys, done, in_use, run[run.len() - 1].before),
        invalidates_next(
            keys,
            done,
            in_use,
            run[run.len() - 1].before,
            run[run.len() - 1].after,
            run[run.len() - 1].step,
        ),
    ensures
        stands(run),
{
    let base = run[0].before;
    let last = run[run.len() - 1];
    if done < keys.len() {
        let key = keys[done];
        let unwrapped = choose|unwrapped: Result<V, Arc<V>>| #[trigger]
            tried(last.before.object(key), last.before.lent[key], unwrapped) && settles_next(
                keys,
                done,
                in_use,
                last.before,
                unwrapped,
                last.after,
                last.step,
            );
        assert(last.before.object(key) == base.object(key));
        assert(tried(base.object(key), base.lent[key], unwrapped));
        assert(keys.contains(key));
        assert(base.entries.contains_key(key));
        let now_in_use = last.step->next->in_use@;
        match unwrapped {
            Ok(owned) => {
                assert(asks_for(
                    run[run.len() - 1],
                    Action::Evict { key, object: *base.object(key) },
                ));
                assert(was_evicted(run, key));
            },
            Err(_) => {
                assert(asks_for(run[run.len() - 1], Action::Retain { key }));
                assert(was_retained(run, key));
                assert(could_not_be_unwrapped(base, key));
            },
        }
        assert forall|j: int| 0 <= j < now_in_use.len() implies {
            &&& was_retained(run, #[trigger] now_in_use[j])
            &&& base.entries.contains_key(now_in_use[j])
            &&& could_not_be_unwrapped(base, now_in_use[j])
        } by {
            if j < in_use.len() {
                assert(now_in_use[j] == in_use[j]);
            }
        }
        assert forall|j: int| done + 1 <= j < keys.len() implies {
            &&& last.after.entries[#[trigger] keys[j]] == base.entries[keys[j]]
            &&& last.after.lent[keys[j]] == base.lent[keys[j]]
        } by {
            assert(keys[j] != keys[done]);
        }
        assert(got_to(run, keys, done + 1, now_in_use, last.after));
    } else {
        assert forall|k: K| #[trigger] base.entries.contains_key(k) implies was_evicted(run, k)
            || was_retained(run, k) by {
            assert(keys.contains(k));
            let j = choose|j: int| 0 <= j < keys.len() && keys[j] == k;
            assert(was_evicted(run, keys[j]) || was_retained(run, keys[j]));
        }
    }
}

/// However far an invalidation got, this is how it stands.
proof fn lemma_stands<K, V, D: ?Sized, E>(run: Seq<InvalidateHappened<K, V, D, E>>)
    requires
        is_run_of_invalidate(run),
    ensures
        stands(run),
    decreases run.len(),
{
    let n = run.len() - 1;
    let last = run[n];
    assert(invalidate_happens(run[n]));
    if n == 0 {
        let keys = choose|keys: Seq<K>| #[trigger]
            last.before.keyed_by(keys) && invalidates_next(
                keys,
                0,
                Seq::empty(),
                last.before,
                last.after,
                last.step,
            );
        lemma_deals_with_next(run, keys, 0, Seq::empty());
    } else {
        let earlier = run.drop_last();
        assert forall|i: int| 0 <= i < earlier.len() - 1 implies #[trigger] invalidate_goes_on(
            earlier[i],
            earlier[i + 1],
        ) by {
            assert(invalidate_goes_on(run[i], run[i + 1]));
        }
        lemma_stands(earlier);
        assert(invalidate_goes_on(run[n - 1], run[n - 1 + 1]));
        let previous = run[n - 1];
        assert(previous == earlier[earlier.len() - 1]);
        assert forall|k: K| #![trigger was_evicted(run, k)] #![trigger was_retained(run, k)]
            (was_evicted(earlier, k) ==> was_evicted(run, k)) && (was_retained(earlier, k)
                ==> was_retained(run, k)) by {
            lemma_longer_run(run, k);
        }
        match last.machine {
            Invalidate::Evicting { keys, done, in_use } => {
                assert(last.before.entries == previous.after.entries);
                assert(last.before.lent == previous.after.lent);
                assert(got_to(earlier, keys@, done as int, in_use@, previous.after));
                assert forall|j: int| 0 <= j < done implies was_evicted(run, #[trigger] keys@[j])
                    || was_retained(run, keys@[j]) by {
                    assert(was_evicted(earlier, keys@[j]) || was_retained(earlier, keys@[j]));
                }
                assert(got_to(run, keys@, done as int, in_use@, last.before));
                lemma_deals_with_next(run, keys@, done as int, in_use@);
            },
            Invalidate::LockingDependencies => {
                assert forall|k: K| #[trigger] run[0].before.entries.contains_key(
                    k,
                ) implies was_evicted(run, k) || was_retained(run, k) by {
                    assert(earlier[0].before.entries.contains_key(k));
                    assert(was_evicted(earlier, k) || was_retained(earlier, k));
                }
            },
            Invalidate::LockingMap => {},
        }
    }
}

/// Before invalidation ends, it deals with every entry that was in the cache: its object is handed
/// to the back end, or it is retained.
pub proof fn law_invalidate_deals_with_every_entry<K, V, D: ?Sized, E>(
    run: Seq<InvalidateHappened<K, V, D, E>>,
    key: K,
)
    requires
        is_run_of_invalidate(run),
        run[run.len() - 1].step is Done,
        run[0].before.entries.contains_key(key),
    ensures
        was_evicted(run, key) || was_retained(run, key),
{
    lemma_stands(run);
}

/// When invalidation ends with entries that are still in use, each of them was in the cache at its
/// start and was retained, because its object could not be unwrapped.
pub proof fn law_invalidate_reports_what_is_in_use<K, V, D: ?Sized, E>(
    run: Seq<InvalidateHappened<K, V, D, E>>,
    left: Vec<K>,
    key: K,
)
    requires
        is_run_of_invalidate(run),
        run[run.len() - 1].step.ends(Err(CacheError::StillInUse(left))),
        left@.contains(key),
    ensures
        run[0].before.entries.contains_key(key),
        was_retained(run, key),
        could_not_be_unwrapped(run[0].before, key),
{
    lemma_stands(run);
    let j = choose|j: int| 0 <= j < left@.len() && left@[j] == key;
    assert(was_retained(run, left@[j]));
}

/// If nothing outside of the cache holds on to any object, invalidation does not fail, and each
/// object is handed to the back end.
pub proof fn law_invalidate_of_unheld_succeeds<K, V, D: ?Sized, E>(
    run: Seq<InvalidateHappened<K, V, D, E>>,
    key: K,
)
    requires
        is_run_of_invalidate(run),
        forall|k: K| #[trigger]
            run[0].before.entries.contains_key(k) ==> unheld(
                run[0].before.object(k),
                run[0].before.lent[k],
            ),
    ensures
        !(run[run.len() - 1].step matches Step::Done(Err(_))),
        run[run.len() - 1].step is Done && run[0].before.entries.contains_key(key) ==> was_evicted(
            run,
            key,
        ),
{
    lemma_stands(run);
    let last = run[run.len() - 1];
    assert(invalidate_happens(run[run.len() - 1]));
    if let Step::Done(Err(error)) = last.step {
        let left = error->StillInUse_0;
        lemma_some_left(last);
        assert(was_retained(run, left@[0]));
    }
    if last.step is Done && run[0].before.entries.contains_key(key) && was_retained(run, key) {
        lemma_retained_could_not_be_unwrapped(run, key);
    }
}

/// A failure names at least one entry.
proof fn lemma_some_left<K, V, D: ?Sized, E>(h: InvalidateHappened<K, V, D, E>)
    requires
        invalidate_happens(h),
        h.step matches Step::Done(Err(_)),
    ensures
        h.step->Done_0->Err_0->StillInUse_0@.len() > 0,
{
    if let Invalidate::LockingMap = h.machine {
        let keys = choose|keys: Seq<K>| #[trigger]
            h.before.keyed_by(keys) && invalidates_next(
                keys,
                0,
                Seq::empty(),
                h.before,
                h.after,
                h.step,
            );
    }
}

/// An entry is retained only if its object could not be unwrapped.
proof fn lemma_retained_could_not_be_unwrapped<K, V, D: ?Sized, E>(
    run: Seq<InvalidateHappened<K, V, D, E>>,
    key: K,
)
    requires
        is_run_of_invalidate(run),
        was_retained(run, key),
    ensures
        run[0].before.entries.contains_key(key),
        could_not_be_unwrapped(run[0].before, key),
{
    let i = choose|i: int|
        0 <= i < run.len() && asks_for(#[trigger] run[i], Action::Retain { key });
    let so_far = run.take(i + 1);
    assert forall|j: int| 0 <= j < so_far.len() - 1 implies #[trigger] invalidate_goes_on(
        so_far[j],
        so_far[j + 1],
    ) by {
        assert(invalidate_goes_on(run[j], run[j + 1]));
    }
    lemma_stands(so_far);
    assert(invalidate_happens(run[i]));
    let h = run[i];
    if let Invalidate::Evicting { keys, done, in_use } = h.machine {
        lemma_retains_last(keys@, done as int, in_use@, h, key);
    } else {
        let keys = choose|keys: Seq<K>| #[trigger]
            h.before.keyed_by(keys) && invalidates_next(
                keys,
                0,
                Seq::empty(),
                h.before,
                h.after,
                h.step,
            );
        lemma_retains_last(keys, 0, Seq::empty(), h, key);
    }
    let now_in_use = h.step->next->in_use@;
    assert(so_far[so_far.len() - 1] == h);
    assert(was_retained(so_far, now_in_use[now_in_use.len() - 1]));
}

/// The entry that was just retained is the last of those in use.
proof fn lemma_retains_last<K, V, D: ?Sized, E>(
    keys: Seq<K>,
    done: int,
    in_use: Seq<K>,
    h: InvalidateHappened<K, V, D, E>,
    key: K,
)
    requires
        invalidates_next(keys, done, in_use, h.before, h.after, h.step),
        asks_for(h, Action::Retain { key }),
    ensures
        h.step->next is Evicting,
        h.step->next->in_use@.len() > 0,
        h.step->next->in_use@.last() == key,
{
}

} // verus!
