//! Setting up a flush dependency.

use crate::async_lru_cache::cache::AsyncLruCache;
use crate::async_lru_cache::check_circular::{CheckCircular, CheckCircularStep};
use crate::async_lru_cache::state::{depends_directly, CacheState, Dependency};
use crate::async_lru_cache::step::{Action, Event, Step};
use std::hash::Hash;
use vstd::prelude::*;

verus! {

/// Setting up of a flush dependency.
///
/// Keeps the lock on the dependencies from the time it is granted to the end, except while the
/// other cache is being flushed.
pub struct DependOn<D: ?Sized> {
    /// ID of the cache that is to depend on the other.
    pub id: usize,
    /// The cache that is to be flushed first.
    pub other: Dependency<D>,
    /// How far it got.
    pub phase: DependOnPhase<D>,
}

/// How far the setting up of a flush dependency got.
pub enum DependOnPhase<D: ?Sized> {
    /// Waiting for the lock on the dependencies.
    LockingDependencies,
    /// Checking whether the other cache depends on this one.
    Checking(CheckCircular<D>),
    /// It does; the other cache is being flushed, so that it will no longer.
    FlushingOther,
}

/// How the setting up of a flush dependency goes on.
pub type DependOnStep<K, V, D, E> = Step<DependOn<D>, Action<K, V, D>, Result<(), E>>;

impl<D: ?Sized> DependOn<D> {
    /// What the machine waits for.
    pub open spec fn awaits<V, E>(self, event: Event<V, D, E>) -> bool {
        match self.phase {
            DependOnPhase::LockingDependencies => event is Locked,
            DependOnPhase::Checking(_) => event is Visited,
            DependOnPhase::FlushingOther => event is Flushed,
        }
    }

    /// Once the lock is held, the check is on whether the other cache, which is not on the list
    /// of dependencies, depends on this one.
    pub open spec fn fits<K, V>(self, cache: CacheState<K, V, D>) -> bool {
        self.phase matches DependOnPhase::Checking(check) ==> {
            &&& check.wf()
            &&& check.origin() == self.other.id
            &&& check.target() == self.id
            &&& !depends_directly(cache.flush_before, self.other.id)
        }
    }

    /// What becomes of a cache `before`, and how the setting up goes on, when the check goes on as
    /// `checked` says.
    pub open spec fn enters_after<K, V, E>(
        self,
        checked: CheckCircularStep<K, V, D>,
        before: CacheState<K, V, D>,
        after: CacheState<K, V, D>,
        step: DependOnStep<K, V, D, E>,
    ) -> bool {
        match checked {
            Step::Wait { next, action } => {
                &&& after == before
                &&& step.waits(DependOn { phase: DependOnPhase::Checking(next), ..self }, action)
            },
            Step::Done(true) => {
                &&& after == before
                &&& step.waits(
                    DependOn { phase: DependOnPhase::FlushingOther, ..self },
                    Action::UnlockAndFlush(self.other),
                )
            },
            Step::Done(false) => {
                &&& after == before.depending_on(before.flush_before.push(self.other))
                &&& step.ends(Ok(()))
            },
        }
    }

    /// What becomes of a cache `before`, and how the setting up goes on, after `event`.
    pub open spec fn steps<K, V, E>(
        self,
        before: CacheState<K, V, D>,
        event: Event<V, D, E>,
        after: CacheState<K, V, D>,
        step: DependOnStep<K, V, D, E>,
    ) -> bool {
        match self.phase {
            DependOnPhase::LockingDependencies => {
                &&& after == before
                &&& if depends_directly(before.flush_before, self.other.id) {
                    step.ends(Ok(()))
                } else {
                    &&& step matches Step::Wait { next, action }
                    &&& next.id == self.id
                    &&& next.other == self.other
                    &&& next.phase matches DependOnPhase::Checking(check)
                    &&& check.known() == Map::<usize, Set<usize>>::empty()
                    &&& check.current() == self.other
                    &&& check.pending() == Seq::<Dependency<D>>::empty()
                    &&& action == Action::<K, V, D>::Visit(self.other)
                }
            },
            DependOnPhase::Checking(check) => {
                exists|checked: CheckCircularStep<K, V, D>| #[trigger]
                    check.steps((event->Visited_0)@, checked) && self.enters_after(
                        checked,
                        before,
                        after,
                        step,
                    )
            },
            DependOnPhase::FlushingOther => {
                &&& after == before
                &&& match event->Flushed_0 {
                    Ok(_) => step.waits(
                        DependOn { phase: DependOnPhase::LockingDependencies, ..self },
                        Action::LockDependencies,
                    ),
                    Err(error) => step.ends(Err(error)),
                }
            },
        }
    }
}

impl<K: Copy + Eq + Hash, V, D: ?Sized> AsyncLruCache<K, V, D> {
    /// Set up a flush dependency.
    ///
    /// Ensure that before anything in this cache, which has the given ID, is flushed, `other` is
    /// flushed first.
    pub fn depend_on<E>(&self, id: usize, other: Dependency<D>) -> (step: DependOnStep<K, V, D, E>)
        ensures
            step.waits(
                DependOn { id, other, phase: DependOnPhase::LockingDependencies },
                Action::LockDependencies,
            ),
    {
        Step::Wait {
            next: DependOn { id, other, phase: DependOnPhase::LockingDependencies },
            action: Action::LockDependencies,
        }
    }
}

impl<D: ?Sized> DependOn<D> {
    /// Go on with the setting up after `event`.
    pub fn step<K: Copy + Eq + Hash, V, E>(
        self,
        cache: &mut AsyncLruCache<K, V, D>,
        event: Event<V, D, E>,
    ) -> (step: DependOnStep<K, V, D, E>)
        requires
            old(cache).wf(),
            self.fits(old(cache)@),
            self.awaits(event),
        ensures
            final(cache).wf(),
            self.steps(old(cache)@, event, final(cache)@, step),
            step matches Step::Wait { next, action } ==> next.fits(final(cache)@),
    {
        let DependOn { id, other, phase } = self;
        let checked: CheckCircularStep<K, V, D> = match (phase, event) {
            (DependOnPhase::LockingDependencies, _) => {
                if cache.depends_on(other.id) {
                    return Step::Done(Ok(()));
                }
                CheckCircular::start(other.share(), id)
            },
            (DependOnPhase::Checking(check), Event::Visited(dependencies)) => {
                check.step(dependencies)
            },
            (DependOnPhase::FlushingOther, Event::Flushed(Ok(_))) => {
                return Step::Wait {
                    next: DependOn { id, other, phase: DependOnPhase::LockingDependencies },
                    action: Action::LockDependencies,
                };
            },
            (DependOnPhase::FlushingOther, Event::Flushed(Err(error))) => {
                return Step::Done(Err(error));
            },
            _ => vstd::pervasive::unreached(),
        };
        match checked {
            Step::Wait { next, action } => Step::Wait {
                next: DependOn { id, other, phase: DependOnPhase::Checking(next) },
                action,
            },
            Step::Done(true) => {
                let action = Action::UnlockAndFlush(other.share());
                Step::Wait { next: DependOn { id, other, phase: DependOnPhase::FlushingOther }, action }
            },
            Step::Done(false) => {
                cache.push_dependency(other);
                Step::Done(Ok(()))
            },
        }
    }
}

} // verus!
