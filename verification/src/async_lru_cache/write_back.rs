//! Flushing what a cache depends on, and one object after that.

use crate::async_lru_cache::cache::AsyncLruCache;
use crate::async_lru_cache::state::{depends_directly, Dependency};
use crate::async_lru_cache::step::{Action, Event, Step};
use std::hash::Hash;
use std::sync::Arc;
use vstd::prelude::*;

verus! {

/// How the flush of all dependencies goes on.
pub enum DependencyStep<D: ?Sized, E> {
    /// This one, taken off the list, is to be flushed now.
    Flush(Dependency<D>),
    /// All are flushed, and none is left on the list.
    Flushed,
    /// One could not be flushed, and is back on the list.
    Failed(E),
}

/// How the flush of the dependencies `flush_before` goes on, and what is left of the list, when
/// `last` is the dependency that was flushed last and how that went.
///
/// The dependencies are flushed from the end of the list to its start, up to the first that
/// fails.
pub open spec fn next_dependency<D: ?Sized, E>(
    flush_before: Seq<Dependency<D>>,
    last: Option<(Dependency<D>, Result<(), E>)>,
) -> (DependencyStep<D, E>, Seq<Dependency<D>>) {
    if let Some((dependency, Err(error))) = last {
        (DependencyStep::Failed(error), flush_before.push(dependency))
    } else if flush_before.len() > 0 {
        (DependencyStep::Flush(flush_before.last()), flush_before.drop_last())
    } else {
        (DependencyStep::Flushed, flush_before)
    }
}

impl<K: Copy + Eq + Hash, V, D: ?Sized> AsyncLruCache<K, V, D> {
    /// Flush all dependencies.
    ///
    /// Flush all caches that must be flushed before this one.  Remove all successfully flushed
    /// caches from our dependency list.
    ///
    /// One call goes from one flush to the next: `last` is the dependency that an earlier call
    /// asked to flush and how that went, and `None` at the start.
    ///
    /// To be called with the lock on the dependencies held, which should be given up only after
    /// this cache is flushed, so that no new dependencies can enter while it is still being
    /// flushed.  The dependency in `last` is then off the list.
    pub fn flush_dependencies<E>(
        &mut self,
        last: Option<(Dependency<D>, Result<(), E>)>,
    ) -> (step: DependencyStep<D, E>)
        requires
            old(self).wf(),
            last matches Some((dependency, _)) ==> !depends_directly(
                old(self)@.flush_before,
                dependency.id,
            ),
        ensures
            final(self).wf(),
            step == next_dependency(old(self)@.flush_before, last).0,
            final(self)@ == old(self)@.depending_on(
                next_dependency(old(self)@.flush_before, last).1,
            ),
            step matches DependencyStep::Flush(dependency) ==> !depends_directly(
                final(self)@.flush_before,
                dependency.id,
            ),
    {
        if let Some((dependency, Err(error))) = last {
            self.push_dependency(dependency);
            return DependencyStep::Failed(error);
        }
        match self.pop_dependency() {
            Some(dependency) => DependencyStep::Flush(dependency),
            None => DependencyStep::Flushed,
        }
    }
}

/// Flush of one object, after everything that the cache depends on.
///
/// Keeps the lock on the dependencies from the time it is granted to the end.
pub enum WriteBack<D: ?Sized> {
    /// Waiting for the lock on the dependencies.
    LockingDependencies,
    /// A dependency is being flushed.
    FlushingDependency(Dependency<D>),
    /// The object is being flushed.
    FlushingEntry,
}

/// How the flush of an object goes on, and what is left of the list of dependencies, when the
/// dependencies go on as `dependencies` says.
pub open spec fn write_back_after<K, V, D: ?Sized, E>(
    dependencies: (DependencyStep<D, E>, Seq<Dependency<D>>),
    key: K,
    value: Arc<V>,
) -> (Step<WriteBack<D>, Action<K, V, D>, Result<(), E>>, Seq<Dependency<D>>) {
    let step = match dependencies.0 {
        DependencyStep::Flush(dependency) => Step::Wait {
            next: WriteBack::FlushingDependency(dependency),
            action: Action::FlushDependency(dependency),
        },
        DependencyStep::Flushed => Step::Wait {
            next: WriteBack::FlushingEntry,
            action: Action::FlushEntry { key, value },
        },
        DependencyStep::Failed(error) => Step::Done(Err(error)),
    };
    (step, dependencies.1)
}

impl<D: ?Sized> WriteBack<D> {
    /// What the machine waits for.
    pub open spec fn awaits<V, E>(self, event: Event<V, D, E>) -> bool {
        match self {
            WriteBack::LockingDependencies => event is Locked,
            WriteBack::FlushingDependency(_) => event is Flushed,
            WriteBack::FlushingEntry => event is Flushed,
        }
    }

    /// Whether the machine holds the lock on the dependencies.
    pub open spec fn holds_dependencies(self) -> bool {
        !(self is LockingDependencies)
    }

    /// A dependency that is being flushed is off the list, and the object is being flushed only
    /// once no dependency is left.
    pub open spec fn fits(self, flush_before: Seq<Dependency<D>>) -> bool {
        match self {
            WriteBack::LockingDependencies => true,
            WriteBack::FlushingDependency(dependency) => !depends_directly(
                flush_before,
                dependency.id,
            ),
            WriteBack::FlushingEntry => flush_before.len() == 0,
        }
    }

    /// How the flush of `value`, cached under `key`, goes on after `event`, and what is left of
    /// the list of dependencies.
    pub open spec fn after<K, V, E>(
        self,
        flush_before: Seq<Dependency<D>>,
        key: K,
        value: Arc<V>,
        event: Event<V, D, E>,
    ) -> (Step<WriteBack<D>, Action<K, V, D>, Result<(), E>>, Seq<Dependency<D>>) {
        match self {
            WriteBack::LockingDependencies => write_back_after(
                next_dependency(flush_before, None),
                key,
                value,
            ),
            WriteBack::FlushingDependency(dependency) => write_back_after(
                next_dependency(flush_before, Some((dependency, event->Flushed_0))),
                key,
                value,
            ),
            WriteBack::FlushingEntry => (Step::Done(event->Flushed_0), flush_before),
        }
    }

    /// Go on with the flush of `value`, cached under `key`, after `event`.
    pub fn step<K: Copy + Eq + Hash, V, E>(
        self,
        cache: &mut AsyncLruCache<K, V, D>,
        key: K,
        value: &Arc<V>,
        event: Event<V, D, E>,
    ) -> (step: Step<WriteBack<D>, Action<K, V, D>, Result<(), E>>)
        requires
            old(cache).wf(),
            self.fits(old(cache)@.flush_before),
            self.awaits(event),
        ensures
            final(cache).wf(),
            step == self.after(old(cache)@.flush_before, key, *value, event).0,
            final(cache)@ == old(cache)@.depending_on(
                self.after(old(cache)@.flush_before, key, *value, event).1,
            ),
            step matches Step::Wait { next, action } ==> {
                &&& next.fits(final(cache)@.flush_before)
                &&& next.holds_dependencies()
                &&& action is FlushEntry ==> final(cache)@.flush_before.len() == 0
            },
    {
        let dependencies = match (self, event) {
            (WriteBack::LockingDependencies, _) => cache.flush_dependencies(None),
            (WriteBack::FlushingDependency(dependency), Event::Flushed(flushed)) => {
                cache.flush_dependencies(Some((dependency, flushed)))
            },
            (WriteBack::FlushingEntry, Event::Flushed(flushed)) => {
                return Step::Done(flushed);
            },
            _ => vstd::pervasive::unreached(),
        };
        match dependencies {
            DependencyStep::Flush(dependency) => {
                let action = Action::FlushDependency(dependency.share());
                Step::Wait { next: WriteBack::FlushingDependency(dependency), action }
            },
            DependencyStep::Flushed => Step::Wait {
                next: WriteBack::FlushingEntry,
                action: Action::FlushEntry { key, value: Arc::clone(value) },
            },
            DependencyStep::Failed(error) => Step::Done(Err(error)),
        }
    }
}

} // verus!
