//! What the locks that an operation holds keep others from changing.

use crate::async_lru_cache::depend_on::{DependOn, DependOnStep};
use crate::async_lru_cache::flush::{Flush, FlushStep};
use crate::async_lru_cache::get_or_insert::{GetOrInsert, GetOrInsertStep};
use crate::async_lru_cache::insert::{Insert, InsertStep};
use crate::async_lru_cache::invalidate::{Invalidate, InvalidateStep};
use crate::async_lru_cache::state::{listed_once, CacheState};
use crate::async_lru_cache::step::Event;
use crate::async_lru_cache::write_back::WriteBack;
use vstd::prelude::*;

verus! {

/// Locks on a cache.
pub struct Locks {
    /// The shared lock on the map of entries.
    pub map_shared: bool,
    /// The exclusive lock on the map of entries.
    pub map_exclusive: bool,
    /// The lock on the list of dependencies.
    pub dependencies: bool,
}

/// The same objects are cached under the same keys.
pub open spec fn same_objects<K, V, D: ?Sized>(
    a: CacheState<K, V, D>,
    b: CacheState<K, V, D>,
) -> bool {
    &&& a.entries.dom() == b.entries.dom()
    &&& forall|k: K| #[trigger] a.entries.contains_key(k) ==> a.entries[k].value == b.entries[k].value
}

impl Locks {
    /// Other operations can turn the cache `a` into `b` while these locks are held: they need the
    /// exclusive lock to add, remove or replace entries, at least the shared one to access them,
    /// and the lock on the dependencies to change those.  They never list a dependency twice.
    pub open spec fn permit<K, V, D: ?Sized>(
        self,
        a: CacheState<K, V, D>,
        b: CacheState<K, V, D>,
    ) -> bool {
        &&& a.limit == b.limit
        &&& self.map_exclusive ==> {
            &&& a.entries == b.entries
            &&& a.lent == b.lent
            &&& a.lru_timer == b.lru_timer
        }
        &&& self.map_shared ==> same_objects(a, b)
        &&& self.dependencies ==> a.flush_before == b.flush_before
        &&& listed_once(a.flush_before) ==> listed_once(b.flush_before)
    }

    /// One operation can hold these locks while another holds `other`.
    pub open spec fn go_with(self, other: Locks) -> bool {
        &&& self.map_exclusive ==> !other.map_exclusive && !other.map_shared
        &&& self.map_shared ==> !other.map_exclusive
        &&& self.dependencies ==> !other.dependencies
    }
}

impl<D: ?Sized> WriteBack<D> {
    /// Locks held while waiting: that on the map, and once it is granted that on the
    /// dependencies.
    pub open spec fn holds(self) -> Locks {
        Locks {
            map_shared: false,
            map_exclusive: true,
            dependencies: self.holds_dependencies(),
        }
    }
}

impl<K, V, D: ?Sized> GetOrInsert<K, V, D> {
    /// Locks held while waiting.
    pub open spec fn holds(self) -> Locks {
        match self {
            GetOrInsert::LockingShared { .. } | GetOrInsert::LockingExclusive { .. } => Locks {
                map_shared: false,
                map_exclusive: false,
                dependencies: false,
            },
            GetOrInsert::Loading { .. } => Locks {
                map_shared: false,
                map_exclusive: true,
                dependencies: false,
            },
            GetOrInsert::MakingRoom { key: _, value: _, eviction } => eviction.write_back.holds(),
        }
    }

    /// Locks held when going on.
    pub open spec fn acts_under(self) -> Locks {
        Locks {
            map_shared: self is LockingShared,
            map_exclusive: !(self is LockingShared),
            dependencies: self is MakingRoom,
        }
    }
}

impl<K, V, D: ?Sized> Insert<K, V, D> {
    /// Locks held when going on.
    pub open spec fn acts_under(self) -> Locks {
        Locks {
            map_shared: false,
            map_exclusive: true,
            dependencies: !(self is LockingMap),
        }
    }

    /// Locks held while waiting.
    pub open spec fn holds(self) -> Locks {
        match self {
            Insert::LockingMap { .. } => Locks {
                map_shared: false,
                map_exclusive: false,
                dependencies: false,
            },
            Insert::Replacing { key: _, value: _, write_back } => write_back.holds(),
            Insert::MakingRoom { key: _, value: _, eviction } => eviction.write_back.holds(),
        }
    }
}

impl<D: ?Sized, E> Flush<D, E> {
    /// Locks held when going on.
    pub open spec fn acts_under(self) -> Locks {
        Locks {
            map_shared: self is LockingMap || self is FlushingEntries,
            map_exclusive: false,
            dependencies: true,
        }
    }

    /// Locks held while waiting.
    pub open spec fn holds(self) -> Locks {
        Locks {
            map_shared: self is FlushingEntries,
            map_exclusive: false,
            dependencies: !(self is LockingDependencies),
        }
    }
}

impl<K> Invalidate<K> {
    /// Locks held when going on.
    pub open spec fn acts_under(self) -> Locks {
        Locks {
            map_shared: false,
            map_exclusive: true,
            dependencies: self is LockingDependencies,
        }
    }

    /// Locks held while waiting.
    pub open spec fn holds(self) -> Locks {
        Locks {
            map_shared: false,
            map_exclusive: !(self is LockingMap),
            dependencies: false,
        }
    }
}

impl<D: ?Sized> DependOn<D> {
    /// Locks held when going on.
    pub open spec fn acts_under(self) -> Locks {
        Locks {
            map_shared: false,
            map_exclusive: false,
            dependencies: !(self.phase is FlushingOther),
        }
    }

    /// Locks held while waiting.
    pub open spec fn holds(self) -> Locks {
        Locks {
            map_shared: false,
            map_exclusive: false,
            dependencies: self.phase is Checking,
        }
    }
}

/// Nothing that other operations can do while an entry is being retrieved gets in the way.
pub proof fn law_get_or_insert_undisturbed<K, V, D: ?Sized>(
    machine: GetOrInsert<K, V, D>,
    a: CacheState<K, V, D>,
    b: CacheState<K, V, D>,
)
    requires
        machine.fits(a),
        machine.holds().permit(a, b),
    ensures
        machine.fits(b),
{
}

/// Nothing that other operations can do while an object is being inserted gets in the way.
pub proof fn law_insert_undisturbed<K, V, D: ?Sized>(
    machine: Insert<K, V, D>,
    a: CacheState<K, V, D>,
    b: CacheState<K, V, D>,
)
    requires
        machine.fits(a),
        machine.holds().permit(a, b),
    ensures
        machine.fits(b),
{
}

/// Nothing that other operations can do while a cache is being flushed gets in the way.
pub proof fn law_flush_undisturbed<K, V, D: ?Sized, E>(
    machine: Flush<D, E>,
    a: CacheState<K, V, D>,
    b: CacheState<K, V, D>,
)
    requires
        machine.fits(a),
        machine.holds().permit(a, b),
    ensures
        machine.fits(b),
{
}

/// Nothing that other operations can do while a cache is being invalidated gets in the way.
pub proof fn law_invalidate_undisturbed<K, V, D: ?Sized>(
    machine: Invalidate<K>,
    a: CacheState<K, V, D>,
    b: CacheState<K, V, D>,
)
    requires
        machine.fits(a),
        machine.holds().permit(a, b),
    ensures
        machine.fits(b),
{
}

/// Nothing that other operations can do while a dependency is being set up gets in the way.
pub proof fn law_depend_on_undisturbed<K, V, D: ?Sized>(
    machine: DependOn<D>,
    a: CacheState<K, V, D>,
    b: CacheState<K, V, D>,
)
    requires
        machine.fits(a),
        machine.holds().permit(a, b),
    ensures
        machine.fits(b),
{
}

/// Retrieving an entry changes nothing that another operation's locks protect.
pub proof fn law_get_or_insert_respects_locks<K, V, D: ?Sized, E>(
    machine: GetOrInsert<K, V, D>,
    before: CacheState<K, V, D>,
    event: Event<V, D, E>,
    after: CacheState<K, V, D>,
    step: GetOrInsertStep<K, V, D, E>,
    other: Locks,
)
    requires
        before.wf(),
        machine.fits(before),
        machine.awaits(event),
        machine.steps(before, event, after, step),
        machine.acts_under().go_with(other),
    ensures
        other.permit(before, after),
{
    if let GetOrInsert::LockingShared { key } = machine {
        if before.entries.contains_key(key) {
            assert(after.entries.dom() == before.entries.dom());
        }
    }
}

/// Inserting an object changes nothing that another operation's locks protect.
pub proof fn law_insert_respects_locks<K, V, D: ?Sized, E>(
    machine: Insert<K, V, D>,
    before: CacheState<K, V, D>,
    event: Event<V, D, E>,
    after: CacheState<K, V, D>,
    step: InsertStep<K, V, D, E>,
    other: Locks,
)
    requires
        before.wf(),
        machine.fits(before),
        machine.awaits(event),
        machine.steps(before, event, after, step),
        machine.acts_under().go_with(other),
    ensures
        other.permit(before, after),
{
}

/// Flushing a cache changes nothing that another operation's locks protect.
pub proof fn law_flush_respects_locks<K, V, D: ?Sized, E>(
    machine: Flush<D, E>,
    before: CacheState<K, V, D>,
    event: Event<V, D, E>,
    after: CacheState<K, V, D>,
    step: FlushStep<K, V, D, E>,
    other: Locks,
)
    requires
        before.wf(),
        machine.fits(before),
        machine.awaits(event),
        machine.steps(before, event, after, step),
        machine.acts_under().go_with(other),
    ensures
        other.permit(before, after),
{
}

/// Invalidating a cache changes nothing that another operation's locks protect.
pub proof fn law_invalidate_respects_locks<K, V, D: ?Sized, E>(
    machine: Invalidate<K>,
    before: CacheState<K, V, D>,
    after: CacheState<K, V, D>,
    step: InvalidateStep<K, V, D, E>,
    other: Locks,
)
    requires
        before.wf(),
        machine.fits(before),
        machine.steps(before, after, step),
        machine.acts_under().go_with(other),
    ensures
        other.permit(before, after),
{
}

/// Setting up a dependency changes nothing that another operation's locks protect.
pub proof fn law_depend_on_respects_locks<K, V, D: ?Sized, E>(
    machine: DependOn<D>,
    before: CacheState<K, V, D>,
    event: Event<V, D, E>,
    after: CacheState<K, V, D>,
    step: DependOnStep<K, V, D, E>,
    other: Locks,
)
    requires
        before.wf(),
        machine.fits(before),
        machine.awaits(event),
        machine.steps(before, event, after, step),
        machine.acts_under().go_with(other),
    ensures
        other.permit(before, after),
{
}

} // verus!
