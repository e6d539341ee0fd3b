//! Dropping all entries without flushing them.

use crate::async_lru_cache::cache::AsyncLruCache;
use crate::async_lru_cache::entry::{lemma_tried, tried, try_unwrap, AsyncLruCacheEntry, Kept};
use crate::async_lru_cache::error::CacheError;
use crate::async_lru_cache::state::CacheState;
use crate::async_lru_cache::step::{Action, Event, Step};
use std::hash::Hash;
use std::sync::Arc;
use vstd::prelude::*;

verus! {

/// Eviction of all entries without flushing them.
///
/// Keeps the exclusive lock on the map from the time it is granted to the end.
pub enum Invalidate<K> {
    /// Waiting for the exclusive lock on the map.
    LockingMap,
    /// The entries are being dealt with, one after the other.
    Evicting {
        /// All keys.
        keys: Vec<K>,
        /// How many of them were dealt with.
        done: usize,
        /// Keys of the entries that stay.
        in_use: Vec<K>,
    },
    /// Waiting for the lock on the dependencies.
    LockingDependencies,
}

/// How the invalidation goes on.
pub type InvalidateStep<K, V, D, E> = Step<
    Invalidate<K>,
    Action<K, V, D>,
    Result<(), CacheError<K, E>>,
>;

/// What becomes of the cache `before`, and how the invalidation goes on, when of all `keys` the
/// first `done` were dealt with, the entries `in_use` stay, and `unwrapped` came of trying to
/// unwrap the object under the next key.
pub open spec fn settles_next<K, V, D: ?Sized, E>(
    keys: Seq<K>,
    done: int,
    in_use: Seq<K>,
    before: CacheState<K, V, D>,
    unwrapped: Result<V, Arc<V>>,
    after: CacheState<K, V, D>,
    step: InvalidateStep<K, V, D, E>,
) -> bool {
    let key = keys[done];
    &&& step matches Step::Wait {
        next: Invalidate::Evicting { keys: same_keys, done: now_done, in_use: now_in_use },
        action,
    }
    &&& same_keys@ == keys
    &&& now_done == done + 1
    &&& match unwrapped {
        Ok(owned) => {
            &&& now_in_use@ == in_use
            &&& after == before.without(key)
            &&& action == Action::<K, V, D>::Evict { key, object: owned }
            &&& owned == *before.object(key)
        },
        Err(_) => {
            &&& now_in_use@ == in_use.push(key)
            &&& after == before.renewed(key)
            &&& action == Action::<K, V, D>::Retain { key }
        },
    }
}

/// What becomes of the cache `before`, and how the invalidation goes on, when of all `keys` the
/// first `done` were dealt with, and the entries `in_use` stay.
pub open spec fn invalidates_next<K, V, D: ?Sized, E>(
    keys: Seq<K>,
    done: int,
    in_use: Seq<K>,
    before: CacheState<K, V, D>,
    after: CacheState<K, V, D>,
    step: InvalidateStep<K, V, D, E>,
) -> bool {
    if done < keys.len() {
        exists|unwrapped: Result<V, Arc<V>>| #[trigger]
            tried(before.object(keys[done]), before.lent[keys[done]], unwrapped) && settles_next(
                keys,
                done,
                in_use,
                before,
                unwrapped,
                after,
                step,
            )
    } else if in_use.len() == 0 {
        &&& after == before
        &&& step.waits(Invalidate::LockingDependencies, Action::LockDependencies)
    } else {
        &&& after == before
        &&& step matches Step::Done(Err(CacheError::StillInUse(left)))
        &&& left@ == in_use
    }
}

/// Try to take an object out of its `Arc`.
fn try_to_own<V>(kept: Kept<V>) -> (unwrapped: Result<V, Arc<V>>)
    ensures
        tried(kept.object(), kept.lent(), unwrapped),
        match unwrapped {
            Ok(owned) => owned == *kept.object(),
            Err(shared) => shared == kept.object(),
        },
{
    let ghost before = kept;
    let unwrapped = try_unwrap(kept);
    proof {
        lemma_tried(before, unwrapped);
    }
    unwrapped
}

impl<K> Invalidate<K> {
    /// What the machine waits for.
    pub open spec fn awaits<V, D: ?Sized, E>(self, event: Event<V, D, E>) -> bool {
        match self {
            Invalidate::LockingMap => event is Locked,
            Invalidate::Evicting { .. } => event is Settled,
            Invalidate::LockingDependencies => event is Locked,
        }
    }

    /// The cache holds the entries that stay and those that were not dealt with yet.
    pub open spec fn fits<V, D: ?Sized>(self, cache: CacheState<K, V, D>) -> bool {
        match self {
            Invalidate::LockingMap => true,
            Invalidate::Evicting { keys, done, in_use } => {
                &&& done <= keys@.len()
                &&& cache.keyed_by(in_use@ + keys@.skip(done as int))
            },
            Invalidate::LockingDependencies => cache.entries.is_empty(),
        }
    }

    /// What becomes of a cache `before`, and how the invalidation goes on, after an event.
    pub open spec fn steps<V, D: ?Sized, E>(
        self,
        before: CacheState<K, V, D>,
        after: CacheState<K, V, D>,
        step: InvalidateStep<K, V, D, E>,
    ) -> bool {
        match self {
            Invalidate::LockingMap => exists|keys: Seq<K>| #[trigger]
                before.keyed_by(keys) && invalidates_next(
                    keys,
                    0,
                    Seq::empty(),
                    before,
                    after,
                    step,
                ),
            Invalidate::Evicting { keys, done, in_use } => invalidates_next(
                keys@,
                done as int,
                in_use@,
                before,
                after,
                step,
            ),
            Invalidate::LockingDependencies => {
                &&& after == before.depending_on(Seq::empty())
                &&& step.ends(Ok(()))
            },
        }
    }
}

impl<K: Copy + Eq + Hash, V, D: ?Sized> AsyncLruCache<K, V, D> {
    /// Evict all cache entries.
    ///
    /// Evicts all cache entries without flushing them.  Entries that are still in use stay, and
    /// make the operation fail.
    ///
    /// Depending on the nature of the cache, dropping objects without flushing them may break
    /// what the cache is for; the caller has to know that it is in order.
    pub fn invalidate<E>(&self) -> (step: InvalidateStep<K, V, D, E>)
        ensures
            step.waits(Invalidate::LockingMap, Action::LockMapExclusive),
    {
        Step::Wait { next: Invalidate::LockingMap, action: Action::LockMapExclusive }
    }

    /// Deal with the entry under `key`, which was removed from the cache, given the result of
    /// trying to unwrap its object.
    pub fn settle(
        &mut self,
        key: K,
        last_used: usize,
        unwrapped: Result<V, Arc<V>>,
    ) -> (action: Action<K, V, D>)
        requires
            old(self).wf(),
            !old(self)@.entries.contains_key(key),
            old(self)@.entries.len() < old(self)@.limit,
        ensures
            final(self).wf(),
            match unwrapped {
                Ok(owned) => {
                    &&& final(self)@ == old(self)@
                    &&& action == Action::<K, V, D>::Evict { key, object: owned }
                },
                Err(shared) => {
                    &&& final(self)@ == old(self)@.with_entry(
                        key,
                        AsyncLruCacheEntry::of(shared, last_used),
                    )
                    &&& action == Action::<K, V, D>::Retain { key }
                },
            },
    {
        match unwrapped {
            Ok(object) => Action::Evict { key, object },
            Err(shared) => {
                self.put_back(key, AsyncLruCacheEntry { value: Some(shared), last_used });
                Action::Retain { key }
            },
        }
    }

    /// Go on with the invalidation.
    fn invalidate_next<E>(
        &mut self,
        keys: Vec<K>,
        done: usize,
        in_use: Vec<K>,
    ) -> (step: InvalidateStep<K, V, D, E>)
        requires
            old(self).wf(),
            done <= keys@.len(),
            old(self)@.keyed_by(in_use@ + keys@.skip(done as int)),
        ensures
            final(self).wf(),
            invalidates_next(keys@, done as int, in_use@, old(self)@, final(self)@, step),
            step matches Step::Wait { next, action } ==> next.fits(final(self)@),
    {
        let ghost left = in_use@ + keys@.skip(done as int);
        if done < keys.len() {
            let mut in_use = in_use;
            let ghost before_in_use = in_use@;
            let key = keys[done];
            assert(left[in_use@.len() as int] == key);
            assert(left.contains(key));
            let (kept, last_used): (Kept<V>, usize) = self.take(key);
            let unwrapped = try_to_own(kept);
            let ghost outcome = unwrapped;
            assert(tried(old(self)@.object(key), old(self)@.lent[key], outcome));
            let action = self.settle(key, last_used, unwrapped);
            if let Action::Retain { .. } = action {
                in_use.push(key);
                assert(self@ == old(self)@.renewed(key));
                assert(in_use@ + keys@.skip(done + 1) == left);
            } else {
                assert(in_use@ + keys@.skip(done + 1) == left.remove(in_use@.len() as int));
                proof {
                    lemma_remove_key(old(self)@, left, in_use@.len() as int);
                }
            }
            let step = Step::Wait {
                next: Invalidate::Evicting { keys, done: (done + 1) as usize, in_use },
                action,
            };
            assert(settles_next(
                keys@,
                done as int,
                before_in_use,
                old(self)@,
                outcome,
                self@,
                step,
            ));
            step
        } else {
            assert(left == in_use@);
            if in_use.len() == 0 {
                assert forall|k: K| !self@.entries.contains_key(k) by {
                    assert(!left.contains(k));
                }
                assert(self@.entries.is_empty());
                Step::Wait {
                    next: Invalidate::LockingDependencies,
                    action: Action::LockDependencies,
                }
            } else {
                Step::Done(Err(CacheError::StillInUse(in_use)))
            }
        }
    }
}

/// Removing the entry under one of all keys leaves the other keys.
proof fn lemma_remove_key<K, V, D: ?Sized>(cache: CacheState<K, V, D>, keys: Seq<K>, i: int)
    requires
        cache.keyed_by(keys),
        0 <= i < keys.len(),
    ensures
        cache.without(keys[i]).keyed_by(keys.remove(i)),
{
    let left = keys.remove(i);
    assert forall|k: K| cache.without(keys[i]).entries.contains_key(k) implies left.contains(k) by {
        assert(cache.entries.contains_key(k));
        let j = choose|j: int| 0 <= j < keys.len() && keys[j] == k;
        if j < i {
            assert(left[j] == k);
        } else {
            assert(left[j - 1] == k);
        }
    }
    assert forall|k: K| left.contains(k) implies cache.without(keys[i]).entries.contains_key(k) by {
        let j = choose|j: int| 0 <= j < left.len() && left[j] == k;
        let original = if j < i {
            j
        } else {
            j + 1
        };
        assert(keys[original] == k);
        assert(keys.contains(k));
    }
}

impl<K: Copy + Eq + Hash> Invalidate<K> {
    /// Go on with the invalidation after `event`.
    pub fn step<V, D: ?Sized, E>(
        self,
        cache: &mut AsyncLruCache<K, V, D>,
        event: Event<V, D, E>,
    ) -> (step: InvalidateStep<K, V, D, E>)
        requires
            old(cache).wf(),
            self.fits(old(cache)@),
            self.awaits(event),
        ensures
            final(cache).wf(),
            self.steps(old(cache)@, final(cache)@, step),
            step matches Step::Wait { next, action } ==> next.fits(final(cache)@),
    {
        match self {
            Invalidate::LockingMap => {
                let keys = cache.keys();
                assert(Seq::<K>::empty() + keys@.skip(0) == keys@);
                cache.invalidate_next(keys, 0, Vec::new())
            },
            Invalidate::Evicting { keys, done, in_use } => {
                cache.invalidate_next(keys, done, in_use)
            },
            Invalidate::LockingDependencies => {
                cache.clear_dependencies();
                Step::Done(Ok(()))
            },
        }
    }
}

} // verus!
