//! What becomes of the dependencies of a cache in the course of an operation.

use crate::async_lru_cache::check_circular::CheckCircularStep;
use crate::async_lru_cache::depend_on::{DependOn, DependOnPhase, DependOnStep};
use crate::async_lru_cache::eviction::{starts_making_room, EnsureFreeEntry, EnsureFreeEntryStep};
use crate::async_lru_cache::eviction_laws::lemma_starting;
use crate::async_lru_cache::flush::{Flush, FlushStep};
use crate::async_lru_cache::get_or_insert::{caches_after, GetOrInsert, GetOrInsertStep};
use crate::async_lru_cache::graph::{agrees, depends, Graph};
use crate::async_lru_cache::insert::{stores_after, Insert, InsertStep};
use crate::async_lru_cache::state::{CacheState, Dependency};
use crate::async_lru_cache::step::{Action, Event, Step};
use crate::async_lru_cache::write_back::WriteBack;
use std::sync::Arc;
use vstd::prelude::*;

verus! {

/// Setting up a dependency never takes another one off the list, and never touches the entries:
/// nothing changes before it succeeds, and then the other cache is at the end of the list, if it
/// was not on it.
pub proof fn law_depend_on_keeps_dependencies<K, V, D: ?Sized, E>(
    machine: DependOn<D>,
    before: CacheState<K, V, D>,
    event: Event<V, D, E>,
    after: CacheState<K, V, D>,
    step: DependOnStep<K, V, D, E>,
)
    requires
        machine.fits(before),
        machine.awaits(event),
        machine.steps(before, event, after, step),
    ensures
        forall|i: int|
            0 <= i < before.flush_before.len() ==> i < after.flush_before.len()
                && #[trigger] before.flush_before[i] == after.flush_before[i],
        step.ends(Ok(())) ==> {
            ||| after.flush_before == before.flush_before && exists|i: int|
                0 <= i < before.flush_before.len() && (#[trigger] before.flush_before[i]).id
                    == machine.other.id
            ||| after.flush_before == before.flush_before.push(machine.other)
        },
        !step.ends(Ok(())) ==> after.flush_before == before.flush_before,
        after.entries == before.entries,
        after.lent == before.lent,
        after.lru_timer == before.lru_timer,
        after.limit == before.limit,
{
}

/// Setting up a dependency flushes the other cache, and no other, only if that depends on this
/// one, and then tries again; it fails only with that flush, and with its error.
pub proof fn law_depend_on_breaks_circles<K, V, D: ?Sized, E>(
    machine: DependOn<D>,
    before: CacheState<K, V, D>,
    event: Event<V, D, E>,
    after: CacheState<K, V, D>,
    step: DependOnStep<K, V, D, E>,
    graph: Graph,
)
    requires
        machine.fits(before),
        machine.awaits(event),
        machine.steps(before, event, after, step),
        machine.phase matches DependOnPhase::Checking(check) ==> agrees(
            graph,
            check.learned((event->Visited_0)@),
        ),
    ensures
        match step {
            Step::Wait { next, action } => {
                &&& next.id == machine.id
                &&& next.other == machine.other
                &&& match action {
                    Action::UnlockAndFlush(dependency) => {
                        &&& dependency == machine.other
                        &&& next.phase is FlushingOther
                        &&& machine.phase is Checking
                        &&& depends(graph, machine.other.id, machine.id)
                    },
                    Action::LockDependencies => {
                        &&& next.phase is LockingDependencies
                        &&& machine.phase is FlushingOther
                        &&& event->Flushed_0 is Ok
                    },
                    Action::Visit(_) => next.phase is Checking,
                    _ => false,
                }
            },
            Step::Done(Ok(_)) => !(machine.phase is FlushingOther),
            Step::Done(Err(error)) => {
                &&& machine.phase is FlushingOther
                &&& event->Flushed_0 == Err::<(), E>(error)
            },
        },
        machine.phase is FlushingOther && event->Flushed_0 is Err ==> step is Done,
{
    if let DependOnPhase::Checking(check) = machine.phase {
        let checked = choose|checked: CheckCircularStep<K, V, D>| #[trigger]
            check.steps((event->Visited_0)@, checked) && machine.enters_after(
                checked,
                before,
                after,
                step,
            );
        assert(agrees(graph, check.learned((event->Visited_0)@)));
    }
}

/// Of the dependencies `before`, at most one left the list for `after`: the one that is to be
/// flushed now, if any.  None is there that was not, but for one that could not be flushed.
pub open spec fn leaves_to_be_flushed<D: ?Sized>(
    before: Seq<Dependency<D>>,
    after: Seq<Dependency<D>>,
    flushing: Option<Dependency<D>>,
    failed: Option<Dependency<D>>,
) -> bool {
    &&& forall|i: int|
        0 <= i < before.len() ==> after.contains(#[trigger] before[i]) || flushing == Some(
            before[i],
        )
    &&& forall|i: int|
        0 <= i < after.len() ==> before.contains(#[trigger] after[i]) || failed == Some(after[i])
    &&& flushing matches Some(dependency) ==> before.contains(dependency)
    &&& failed matches Some(dependency) ==> after.contains(dependency)
}

/// The dependency that an action asks to flush.
pub open spec fn flushed_by<K, V, D: ?Sized>(action: Action<K, V, D>) -> Option<Dependency<D>> {
    match action {
        Action::FlushDependency(dependency) => Some(dependency),
        _ => None,
    }
}

/// The dependency that could not be flushed.
pub open spec fn failed_by<V, D: ?Sized, E>(
    flushing: Option<Dependency<D>>,
    event: Event<V, D, E>,
) -> Option<Dependency<D>> {
    match event {
        Event::Flushed(Err(_)) => flushing,
        _ => None,
    }
}

/// The dependency that is being flushed while an object waits for that.
pub open spec fn awaited_by<D: ?Sized>(write_back: WriteBack<D>) -> Option<Dependency<D>> {
    match write_back {
        WriteBack::FlushingDependency(dependency) => Some(dependency),
        _ => None,
    }
}

/// What is last on a list is on it, and the rest is all there was.
proof fn lemma_drop_last<D: ?Sized>(list: Seq<Dependency<D>>)
    requires
        list.len() > 0,
    ensures
        list.contains(list.last()),
        forall|i: int|
            0 <= i < list.len() ==> list.drop_last().contains(#[trigger] list[i]) || list[i]
                == list.last(),
        forall|i: int|
            0 <= i < list.len() - 1 ==> list.contains(#[trigger] list.drop_last()[i]),
{
    assert(list[list.len() - 1] == list.last());
    assert forall|i: int| 0 <= i < list.len() implies list.drop_last().contains(#[trigger] list[i])
        || list[i] == list.last() by {
        if i < list.len() - 1 {
            assert(list.drop_last()[i] == list[i]);
        }
    }
    assert forall|i: int| 0 <= i < list.len() - 1 implies list.contains(
        #[trigger] list.drop_last()[i],
    ) by {
        assert(list[i] == list.drop_last()[i]);
    }
}

/// A dependency that goes back on a list is on it, with all that there was.
proof fn lemma_push<D: ?Sized>(list: Seq<Dependency<D>>, dependency: Dependency<D>)
    ensures
        list.push(dependency).contains(dependency),
        forall|i: int| 0 <= i < list.len() ==> list.push(dependency).contains(#[trigger] list[i]),
        forall|i: int|
            0 <= i < list.len() + 1 ==> list.contains(#[trigger] list.push(dependency)[i])
                || list.push(dependency)[i] == dependency,
{
    let longer = list.push(dependency);
    assert(longer[list.len() as int] == dependency);
    assert forall|i: int| 0 <= i < list.len() implies longer.contains(#[trigger] list[i]) by {
        assert(longer[i] == list[i]);
    }
    assert forall|i: int| 0 <= i < list.len() + 1 implies list.contains(#[trigger] longer[i])
        || longer[i] == dependency by {
        if i < list.len() {
            assert(list[i] == longer[i]);
        }
    }
}

/// Flushing the cache takes a dependency off the list only to have it flushed, and puts it back
/// if that fails.
pub proof fn law_flush_takes_off_only_to_flush<K, V, D: ?Sized, E>(
    machine: Flush<D, E>,
    before: CacheState<K, V, D>,
    event: Event<V, D, E>,
    after: CacheState<K, V, D>,
    step: FlushStep<K, V, D, E>,
)
    requires
        machine.fits(before),
        machine.awaits(event),
        machine.steps(before, event, after, step),
    ensures
        ({
            let flushing = match machine {
                Flush::FlushingDependency(dependency) => Some(dependency),
                _ => None,
            };
            match step {
                Step::Wait { next, action } => {
                    &&& leaves_to_be_flushed(
                        before.flush_before,
                        after.flush_before,
                        flushed_by(action),
                        failed_by(flushing, event),
                    )
                    &&& match next {
                        Flush::FlushingDependency(dependency) => flushed_by(action) == Some(
                            dependency,
                        ),
                        _ => flushed_by(action) is None,
                    }
                },
                Step::Done(_) => leaves_to_be_flushed(
                    before.flush_before,
                    after.flush_before,
                    None,
                    failed_by(flushing, event),
                ),
            }
        }),
        machine is FlushingDependency && event->Flushed_0 is Err ==> step.ends(
            Err(event->Flushed_0->Err_0),
        ),
        machine is FlushingDependency && event->Flushed_0 is Ok ==> step is Wait,
        after.limit == before.limit,
{
    let list = before.flush_before;
    assert forall|i: int| 0 <= i < list.len() implies list.contains(#[trigger] list[i]) by {}
    if list.len() > 0 {
        lemma_drop_last(list);
    }
    if let Flush::FlushingDependency(dependency) = machine {
        lemma_push(list, dependency);
    }
}

/// Making room takes a dependency off the list only to have it flushed, and puts it back if that
/// fails; the victim stays the same, and is the only object that is flushed.
pub proof fn law_making_room_takes_off_only_to_flush<K, V, D: ?Sized, E>(
    eviction: EnsureFreeEntry<K, V, D>,
    before: CacheState<K, V, D>,
    event: Event<V, D, E>,
    after: CacheState<K, V, D>,
    step: EnsureFreeEntryStep<K, V, D, E>,
)
    requires
        eviction.fits(before),
        eviction.write_back.awaits(event),
        eviction.steps(before, event, after, step),
    ensures
        match step {
            Step::Wait { next, action } => {
                &&& leaves_to_be_flushed(
                    before.flush_before,
                    after.flush_before,
                    flushed_by(action),
                    failed_by(awaited_by(eviction.write_back), event),
                )
                &&& awaited_by(next.write_back) == flushed_by(action)
                &&& next.key == eviction.key
                &&& next.entry == eviction.entry
                &&& next.write_back is FlushingEntry <==> action is FlushEntry
                &&& action is FlushEntry ==> {
                    &&& action->FlushEntry_key == eviction.key
                    &&& Some(action->FlushEntry_value) == eviction.entry.value
                    &&& after.flush_before.len() == 0
                }
            },
            Step::Done(_) => leaves_to_be_flushed(
                before.flush_before,
                after.flush_before,
                None,
                failed_by(awaited_by(eviction.write_back), event),
            ),
        },
        after.limit == before.limit,
{
    let list = before.flush_before;
    assert forall|i: int| 0 <= i < list.len() implies list.contains(#[trigger] list[i]) by {}
    if list.len() > 0 {
        lemma_drop_last(list);
    }
    if let WriteBack::FlushingDependency(dependency) = eviction.write_back {
        lemma_push(list, dependency);
    }
}

/// The dependency that is being flushed while an entry is being retrieved.
pub open spec fn get_awaits<K, V, D: ?Sized>(machine: GetOrInsert<K, V, D>) -> Option<
    Dependency<D>,
> {
    match machine {
        GetOrInsert::MakingRoom { key: _, value: _, eviction } => awaited_by(eviction.write_back),
        _ => None,
    }
}

/// Retrieving an entry takes a dependency off the list only to have it flushed, and puts it back
/// if that fails.
pub proof fn law_get_takes_off_only_to_flush<K, V, D: ?Sized, E>(
    machine: GetOrInsert<K, V, D>,
    before: CacheState<K, V, D>,
    event: Event<V, D, E>,
    after: CacheState<K, V, D>,
    step: GetOrInsertStep<K, V, D, E>,
)
    requires
        machine.fits(before),
        machine.awaits(event),
        machine.steps(before, event, after, step),
    ensures
        match step {
            Step::Wait { next, action } => {
                &&& leaves_to_be_flushed(
                    before.flush_before,
                    after.flush_before,
                    flushed_by(action),
                    failed_by(get_awaits(machine), event),
                )
                &&& get_awaits(next) == flushed_by(action)
            },
            Step::Done(_) => leaves_to_be_flushed(
                before.flush_before,
                after.flush_before,
                None,
                failed_by(get_awaits(machine), event),
            ),
        },
        after.limit == before.limit,
{
    let list = before.flush_before;
    assert forall|i: int| 0 <= i < list.len() implies list.contains(#[trigger] list[i]) by {}
    match machine {
        GetOrInsert::Loading { key } => {
            if let Ok(object) = event->Loaded_0 {
                let (value, room, made_room) = choose|
                    value: Arc<V>,
                    room: CacheState<K, V, D>,
                    made_room: EnsureFreeEntryStep<K, V, D, E>,
                |
                    {
                        &&& *value == object
                        &&& starts_making_room(before, room, made_room)
                        &&& #[trigger] caches_after(key, value, room, made_room, after, step)
                    };
                lemma_starting(before, room, made_room);
            }
        },
        GetOrInsert::MakingRoom { key, value, eviction } => {
            let (room, made_room) = choose|
                room: CacheState<K, V, D>,
                made_room: EnsureFreeEntryStep<K, V, D, E>,
            | #[trigger]
                eviction.steps(before, event, room, made_room) && caches_after(
                    key,
                    value,
                    room,
                    made_room,
                    after,
                    step,
                );
            law_making_room_takes_off_only_to_flush(eviction, before, event, room, made_room);
        },
        _ => {},
    }
}

/// The dependency that is being flushed while an object is being inserted.
pub open spec fn insert_awaits<K, V, D: ?Sized>(machine: Insert<K, V, D>) -> Option<Dependency<D>> {
    match machine {
        Insert::LockingMap { .. } => None,
        Insert::Replacing { key: _, value: _, write_back } => awaited_by(write_back),
        Insert::MakingRoom { key: _, value: _, eviction } => awaited_by(eviction.write_back),
    }
}

/// Inserting an object takes a dependency off the list only to have it flushed, and puts it back
/// if that fails.
pub proof fn law_insert_takes_off_only_to_flush<K, V, D: ?Sized, E>(
    machine: Insert<K, V, D>,
    before: CacheState<K, V, D>,
    event: Event<V, D, E>,
    after: CacheState<K, V, D>,
    step: InsertStep<K, V, D, E>,
)
    requires
        machine.fits(before),
        machine.awaits(event),
        machine.steps(before, event, after, step),
    ensures
        match step {
            Step::Wait { next, action } => {
                &&& leaves_to_be_flushed(
                    before.flush_before,
                    after.flush_before,
                    flushed_by(action),
                    failed_by(insert_awaits(machine), event),
                )
                &&& insert_awaits(next) == flushed_by(action)
            },
            Step::Done(_) => leaves_to_be_flushed(
                before.flush_before,
                after.flush_before,
                None,
                failed_by(insert_awaits(machine), event),
            ),
        },
        after.limit == before.limit,
{
    let list = before.flush_before;
    assert forall|i: int| 0 <= i < list.len() implies list.contains(#[trigger] list[i]) by {}
    match machine {
        Insert::LockingMap { key, value } => {
            if !before.entries.contains_key(key) {
                let (room, made_room) = choose|
                    room: CacheState<K, V, D>,
                    made_room: EnsureFreeEntryStep<K, V, D, E>,
                | #[trigger]
                    starts_making_room(before, room, made_room) && stores_after(
                        key,
                        value,
                        room,
                        made_room,
                        after,
                        step,
                    );
                lemma_starting(before, room, made_room);
            }
        },
        Insert::Replacing { key, value, write_back } => {
            if list.len() > 0 {
                lemma_drop_last(list);
            }
            if let WriteBack::FlushingDependency(dependency) = write_back {
                lemma_push(list, dependency);
            }
        },
        Insert::MakingRoom { key, value, eviction } => {
            let (room, made_room) = choose|
                room: CacheState<K, V, D>,
                made_room: EnsureFreeEntryStep<K, V, D, E>,
            | #[trigger]
                eviction.steps(before, event, room, made_room) && stores_after(
                    key,
                    value,
                    room,
                    made_room,
                    after,
                    step,
                );
            law_making_room_takes_off_only_to_flush(eviction, before, event, room, made_room);
        },
    }
}

/// What happened in one step of an operation, run by a machine of type `M`.
pub struct Happened<M, S, C, R> {
    /// The machine before the step.
    pub machine: M,
    /// The cache before the step.
    pub before: C,
    /// What the machine was told.
    pub event: R,
    /// The cache after the step.
    pub after: C,
    /// How the operation goes on.
    pub step: S,
}

/// One step of flushing the cache.
pub type FlushHappened<K, V, D, E> = Happened<
    Flush<D, E>,
    FlushStep<K, V, D, E>,
    CacheState<K, V, D>,
    Event<V, D, E>,
>;

/// This can happen in the course of a flush of the cache.
pub open spec fn flush_happens<K, V, D: ?Sized, E>(h: FlushHappened<K, V, D, E>) -> bool {
    &&& h.before.wf()
    &&& h.machine.fits(h.before)
    &&& h.machine.awaits(h.event)
    &&& h.machine.steps(h.before, h.event, h.after, h.step)
}

/// `h` is the step before `next`.  In between, other operations may change the cache as far as the
/// locks permit.
pub open spec fn flush_goes_on<K, V, D: ?Sized, E>(
    h: FlushHappened<K, V, D, E>,
    next: FlushHappened<K, V, D, E>,
) -> bool {
    &&& h.step is Wait
    &&& next.machine == h.step->next
    &&& next.machine.holds().permit(h.after, next.before)
}

/// `run` is a flush of the cache up to some point.
pub open spec fn is_run_of_flush<K, V, D: ?Sized, E>(run: Seq<FlushHappened<K, V, D, E>>) -> bool {
    &&& run.len() > 0
    &&& run[0].machine is LockingDependencies
    &&& forall|i: int| 0 <= i < run.len() ==> flush_happens(#[trigger] run[i])
    &&& forall|i: int|
        0 <= i < run.len() - 1 ==> #[trigger] flush_goes_on(run[i], run[i + 1])
}

/// In the course of `run`, `dependency` was asked to be flushed, and that succeeded.
pub open spec fn was_flushed<K, V, D: ?Sized, E>(
    run: Seq<FlushHappened<K, V, D, E>>,
    dependency: Dependency<D>,
) -> bool {
    exists|i: int| #![trigger run[i]]
        {
            &&& 0 <= i < run.len() - 1
            &&& run[i].step is Wait
            &&& run[i].step->action == Action::<K, V, D>::FlushDependency(dependency)
            &&& run[i + 1].event matches Event::Flushed(Ok(_))
        }
}

/// As far as the flush got, every dependency that was on the list at its start was flushed, is
/// being flushed, or is still on the list.
proof fn lemma_none_is_lost<K, V, D: ?Sized, E>(
    run: Seq<FlushHappened<K, V, D, E>>,
    dependency: Dependency<D>,
)
    requires
        is_run_of_flush(run),
        run[0].before.flush_before.contains(dependency),
    ensures
        ({
            let last = run[run.len() - 1];
            ||| was_flushed(run, dependency)
            ||| last.after.flush_before.contains(dependency)
            ||| last.step is Wait && last.step->action == Action::<K, V, D>::FlushDependency(
                dependency,
            )
        }),
        ({
            let last = run[run.len() - 1];
            last.step matches Step::Wait { next, action } ==> next.holds().dependencies && (
            flushed_by(action) matches Some(d) ==> next == Flush::<D, E>::FlushingDependency(d))
        }),
    decreases run.len(),
{
    let n = run.len() - 1;
    let last = run[n];
    law_flush_takes_off_only_to_flush(
        last.machine,
        last.before,
        last.event,
        last.after,
        last.step,
    );
    if n == 0 {
        let i = choose|i: int|
            0 <= i < last.before.flush_before.len() && last.before.flush_before[i] == dependency;
        assert(last.before.flush_before[i] == dependency);
    } else {
        let earlier = run.drop_last();
        assert forall|i: int| 0 <= i < earlier.len() - 1 implies #[trigger] flush_goes_on(
            earlier[i],
            earlier[i + 1],
        ) by {
            assert(flush_goes_on(run[i], run[i + 1]));
        }
        lemma_none_is_lost(earlier, dependency);
        let previous = run[n - 1];
        assert(previous == earlier[earlier.len() - 1]);
        assert(flush_goes_on(run[n - 1], run[n - 1 + 1]));
        assert(last.before.flush_before == previous.after.flush_before);
        if was_flushed(earlier, dependency) {
            let i = choose|i: int| #![trigger earlier[i]]
                {
                    &&& 0 <= i < earlier.len() - 1
                    &&& earlier[i].step is Wait
                    &&& earlier[i].step->action == Action::<K, V, D>::FlushDependency(dependency)
                    &&& earlier[i + 1].event matches Event::Flushed(Ok(_))
                };
            assert(run[i] == earlier[i] && run[i + 1] == earlier[i + 1]);
        } else if previous.after.flush_before.contains(dependency) {
            let list = last.before.flush_before;
            let i = choose|i: int| 0 <= i < list.len() && list[i] == dependency;
            assert(list[i] == dependency);
        } else {
            assert(last.machine == Flush::<D, E>::FlushingDependency(dependency));
            if last.event matches Event::Flushed(Ok(_)) {
                assert(run[n - 1].step->action == Action::<K, V, D>::FlushDependency(dependency));
            }
        }
    }
}

/// Before the flush of a cache gets to its own objects, every cache that was on its list of
/// dependencies was flushed, with success.
pub proof fn law_flush_flushes_all_dependencies<K, V, D: ?Sized, E>(
    run: Seq<FlushHappened<K, V, D, E>>,
    dependency: Dependency<D>,
)
    requires
        is_run_of_flush(run),
        run[0].before.flush_before.contains(dependency),
        ({
            let last = run[run.len() - 1];
            ||| last.step is Wait && last.step->action is FlushEntries
            ||| last.step matches Step::Done(Ok(_))
        }),
    ensures
        was_flushed(run, dependency),
{
    let n = run.len() - 1;
    let last = run[n];
    lemma_none_is_lost(run, dependency);
    assert(last.machine is LockingMap || last.machine is FlushingEntries);
    assert(last.after.flush_before.len() == 0);
}

} // verus!
