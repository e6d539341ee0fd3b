//! What the state machines ask for, and what they are told.

use crate::async_lru_cache::state::Dependency;
use std::sync::Arc;
use vstd::prelude::*;

verus! {

/// One piece of outside work, to be done before the machine can go on.
pub enum Action<K, V, D: ?Sized> {
    /// Wait for the shared lock on the map of entries.  Answered by [`Event::Locked`].
    LockMapShared,
    /// Give up any lock on the map of entries and wait for the exclusive one.  Answered by
    /// [`Event::Locked`].
    LockMapExclusive,
    /// Give up the lock on the list of dependencies, if held, and wait for it.  Answered by
    /// [`Event::Locked`].
    LockDependencies,
    /// Flush another cache.  Answered by [`Event::Flushed`].
    FlushDependency(Dependency<D>),
    /// Give up the lock on the list of dependencies, then flush another cache.  Answered by
    /// [`Event::Flushed`].
    UnlockAndFlush(Dependency<D>),
    /// Let the back end flush an object.  Answered by [`Event::Flushed`].
    FlushEntry {
        /// Key of the object.
        key: K,
        /// The object.
        value: Arc<V>,
    },
    /// Let the back end flush all of these objects at once, up to the first failure or until all
    /// are done.  Answered by [`Event::Flushed`].
    FlushEntries(Vec<(K, Arc<V>)>),
    /// Go on with the flushes that were started, up to the next failure or until all are done.
    /// Answered by [`Event::Flushed`].
    ContinueFlush,
    /// Let the back end load an object.  Answered by [`Event::Loaded`].
    Load {
        /// Key of the object.
        key: K,
    },
    /// Let the back end drop an object without flushing it.  Answered by [`Event::Settled`].
    Evict {
        /// Key of the object.
        key: K,
        /// The object.
        object: V,
    },
    /// Nothing: the entry is still in use and stays.  Answered by [`Event::Settled`].
    Retain {
        /// Key of the entry.
        key: K,
    },
    /// Wait for the lock on the dependencies of another cache, and read the list.  Answered by
    /// [`Event::Visited`].
    Visit(Dependency<D>),
}

/// Outcome of an action.
pub enum Event<V, D: ?Sized, E> {
    /// The lock is held.
    Locked,
    /// The flush succeeded or failed.
    Flushed(Result<(), E>),
    /// The object was loaded, or could not be loaded.
    Loaded(Result<V, E>),
    /// The entry was dealt with.
    Settled,
    /// Another cache has these dependencies.
    Visited(Vec<Dependency<D>>),
}

/// How a machine goes on.
pub enum Step<M, A, R> {
    /// The action is to be done, and its outcome to be handed to the machine.
    Wait {
        /// The machine.
        next: M,
        /// What to do.
        action: A,
    },
    /// The operation is over, with this result.  All its locks can be given up.
    Done(R),
}

impl<M, A, R> Step<M, A, R> {
    /// The machine, now `next`, asks for `action`.
    pub open spec fn waits(self, next: M, action: A) -> bool {
        self == Step::<M, A, R>::Wait { next, action }
    }

    /// The operation ends with `result`.
    pub open spec fn ends(self, result: R) -> bool {
        self == Step::<M, A, R>::Done(result)
    }
}

} // verus!
