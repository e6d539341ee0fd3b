//! Flushing the whole cache.

use crate::async_lru_cache::cache::AsyncLruCache;
use crate::async_lru_cache::state::{depends_directly, CacheState, Dependency};
use crate::async_lru_cache::step::{Action, Event, Step};
use crate::async_lru_cache::write_back::{next_dependency, DependencyStep};
use std::hash::Hash;
use vstd::prelude::*;

verus! {

/// Flush of all cache entries, after everything that the cache depends on.
///
/// Keeps the lock on the dependencies, and then the shared lock on the map, from the time they
/// are granted to the end.
pub enum Flush<D: ?Sized, E> {
    /// Waiting for the lock on the dependencies.
    LockingDependencies,
    /// A dependency is being flushed.
    FlushingDependency(Dependency<D>),
    /// Waiting for the shared lock on the map.
    LockingMap,
    /// All objects are being flushed.
    FlushingEntries {
        /// The first error that was met.
        first_error: Option<E>,
    },
}

/// How the flush goes on.
pub type FlushStep<K, V, D, E> = Step<Flush<D, E>, Action<K, V, D>, Result<(), E>>;

/// How the flush goes on, when the dependencies go on as `dependency` says.
pub open spec fn flushes_after<K, V, D: ?Sized, E>(
    dependency: DependencyStep<D, E>,
    step: FlushStep<K, V, D, E>,
) -> bool {
    match dependency {
        DependencyStep::Flush(dependency) => step.waits(
            Flush::FlushingDependency(dependency),
            Action::FlushDependency(dependency),
        ),
        DependencyStep::Flushed => step.waits(Flush::LockingMap, Action::LockMapShared),
        DependencyStep::Failed(error) => step.ends(Err(error)),
    }
}

impl<D: ?Sized, E> Flush<D, E> {
    /// What the machine waits for.
    pub open spec fn awaits<V>(self, event: Event<V, D, E>) -> bool {
        match self {
            Flush::LockingDependencies => event is Locked,
            Flush::FlushingDependency(_) => event is Flushed,
            Flush::LockingMap => event is Locked,
            Flush::FlushingEntries { .. } => event is Flushed,
        }
    }

    /// A dependency that is being flushed is off the list, and own objects are being flushed only
    /// once no dependency is left.
    pub open spec fn fits<K, V>(self, cache: CacheState<K, V, D>) -> bool {
        match self {
            Flush::LockingDependencies => true,
            Flush::FlushingDependency(dependency) => !depends_directly(
                cache.flush_before,
                dependency.id,
            ),
            Flush::LockingMap | Flush::FlushingEntries { .. } => cache.flush_before.len() == 0,
        }
    }

    /// What becomes of a cache `before`, and how the flush goes on, after `event`.
    ///
    /// A failure to flush an object does not keep the others from being flushed; the flush ends
    /// with the first error.
    pub open spec fn steps<K, V>(
        self,
        before: CacheState<K, V, D>,
        event: Event<V, D, E>,
        after: CacheState<K, V, D>,
        step: FlushStep<K, V, D, E>,
    ) -> bool {
        match self {
            Flush::LockingDependencies => {
                let (dependency, flush_before) = next_dependency(before.flush_before, None);
                &&& after == before.depending_on(flush_before)
                &&& flushes_after(dependency, step)
            },
            Flush::FlushingDependency(last) => {
                let (dependency, flush_before) = next_dependency(
                    before.flush_before,
                    Some((last, event->Flushed_0)),
                );
                &&& after == before.depending_on(flush_before)
                &&& flushes_after(dependency, step)
            },
            Flush::LockingMap => {
                &&& after == before.lending_all()
                &&& step matches Step::Wait { next, action }
                &&& next == Flush::<D, E>::FlushingEntries { first_error: None }
                &&& action matches Action::FlushEntries(listed)
                &&& before.listed_as(listed@)
            },
            Flush::FlushingEntries { first_error } => {
                &&& after == before
                &&& match (event->Flushed_0, first_error) {
                    (Ok(_), None) => step.ends(Ok(())),
                    (Ok(_), Some(first)) => step.ends(Err(first)),
                    (Err(error), None) => step.waits(
                        Flush::FlushingEntries { first_error: Some(error) },
                        Action::ContinueFlush,
                    ),
                    (Err(_), Some(first)) => step.waits(
                        Flush::FlushingEntries { first_error: Some(first) },
                        Action::ContinueFlush,
                    ),
                }
            },
        }
    }
}

impl<K: Copy + Eq + Hash, V, D: ?Sized> AsyncLruCache<K, V, D> {
    /// Flush all cache entries.
    ///
    /// Those entries are not evicted, but remain in the cache.
    pub fn flush<E>(&self) -> (step: FlushStep<K, V, D, E>)
        ensures
            step.waits(Flush::LockingDependencies, Action::LockDependencies),
    {
        Step::Wait { next: Flush::LockingDependencies, action: Action::LockDependencies }
    }
}

/// Go on with the flush.
fn flush_after<K, V, D: ?Sized, E>(dependency: DependencyStep<D, E>) -> (step: FlushStep<K, V, D, E>)
    ensures
        flushes_after(dependency, step),
{
    match dependency {
        DependencyStep::Flush(dependency) => {
            let action = Action::FlushDependency(dependency.share());
            Step::Wait { next: Flush::FlushingDependency(dependency), action }
        },
        DependencyStep::Flushed => Step::Wait {
            next: Flush::LockingMap,
            action: Action::LockMapShared,
        },
        DependencyStep::Failed(error) => Step::Done(Err(error)),
    }
}

impl<D: ?Sized, E> Flush<D, E> {
    /// Go on with the flush after `event`.
    pub fn step<K: Copy + Eq + Hash, V>(
        self,
        cache: &mut AsyncLruCache<K, V, D>,
        event: Event<V, D, E>,
    ) -> (step: FlushStep<K, V, D, E>)
        requires
            old(cache).wf(),
            self.fits(old(cache)@),
            self.awaits(event),
        ensures
            final(cache).wf(),
            self.steps(old(cache)@, event, final(cache)@, step),
            step matches Step::Wait { next, action } ==> next.fits(final(cache)@),
    {
        match (self, event) {
            (Flush::LockingDependencies, _) => flush_after(cache.flush_dependencies(None)),
            (Flush::FlushingDependency(last), Event::Flushed(flushed)) => {
                flush_after(cache.flush_dependencies(Some((last, flushed))))
            },
            (Flush::LockingMap, _) => Step::Wait {
                next: Flush::FlushingEntries { first_error: None },
                action: Action::FlushEntries(cache.list()),
            },
            (Flush::FlushingEntries { first_error }, Event::Flushed(Ok(_))) => match first_error {
                Some(first) => Step::Done(Err(first)),
                None => Step::Done(Ok(())),
            },
            (Flush::FlushingEntries { first_error }, Event::Flushed(Err(error))) => {
                let first_error = match first_error {
                    Some(first) => Some(first),
                    None => Some(error),
                };
                Step::Wait {
                    next: Flush::FlushingEntries { first_error },
                    action: Action::ContinueFlush,
                }
            },
            _ => vstd::pervasive::unreached(),
        }
    }
}

} // verus!
