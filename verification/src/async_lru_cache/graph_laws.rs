//! What setting up flush dependencies promises.

use crate::async_lru_cache::check_circular::{CheckCircular, CheckCircularStep};
use crate::async_lru_cache::depend_on::{DependOn, DependOnPhase, DependOnStep};
use crate::async_lru_cache::flush::{Flush, FlushStep};
use crate::async_lru_cache::get_or_insert::{GetOrInsert, GetOrInsertStep};
use crate::async_lru_cache::graph::{
    acyclic, agrees, connects, depends, edge, ids, lemma_depends_edge, lemma_depends_monotonic,
    lemma_depends_transitive, lemma_edge_depends, Graph,
};
use crate::async_lru_cache::insert::{Insert, InsertStep};
use crate::async_lru_cache::invalidate::{Invalidate, InvalidateStep};
use crate::async_lru_cache::state::{depends_directly, listed_once, CacheState, Dependency};
use crate::async_lru_cache::step::{Action, Event, Step};
use vstd::prelude::*;

verus! {

/// `a` depends on `b` once that is set up.
pub open spec fn with_dependency(graph: Graph, a: usize, b: usize) -> Graph {
    if graph.contains_key(a) {
        graph.insert(a, graph[a].insert(b))
    } else {
        graph.insert(a, Set::empty().insert(b))
    }
}

/// A path in a graph with the new dependency of `a` on `b` either does without it, or leads to
/// `a` and on from `b`.
proof fn lemma_path_with_dependency(graph: Graph, a: usize, b: usize, path: Seq<usize>)
    requires
        path.len() >= 2,
        connects(with_dependency(graph, a, b), path, path.first(), path.last()),
    ensures
        ({
            ||| depends(graph, path.first(), path.last())
            ||| {
                &&& path.first() == a || depends(graph, path.first(), a)
                &&& path.last() == b || depends(graph, b, path.last())
            }
        }),
    decreases path.len(),
{
    let larger = with_dependency(graph, a, b);
    let x = path[path.len() - 2];
    let y = path.last();
    assert(edge(larger, path[path.len() - 2], path[path.len() - 2 + 1]));
    if path.len() == 2 {
        if edge(graph, x, y) {
            lemma_edge_depends(graph, x, y);
        }
    } else {
        let shorter = path.drop_last();
        assert forall|i: int| 0 <= i < shorter.len() - 1 implies edge(
            larger,
            #[trigger] shorter[i],
            shorter[i + 1],
        ) by {
            assert(edge(larger, path[i], path[i + 1]));
        }
        assert(shorter.last() == x);
        lemma_path_with_dependency(graph, a, b, shorter);
        if edge(graph, x, y) {
            if depends(graph, path.first(), x) {
                lemma_depends_edge(graph, path.first(), x, y);
            } else if x == b {
                lemma_edge_depends(graph, b, y);
            } else {
                lemma_depends_edge(graph, b, x, y);
            }
        }
    }
}

/// What the words mean: a cache depends directly on those that its list holds, and nothing else;
/// what is known of a graph is in line with it if it says the same of each cache that it has.
pub proof fn law_direct_dependencies<D: ?Sized>(
    graph: Graph,
    known: Graph,
    list: Seq<Dependency<D>>,
    a: usize,
    b: usize,
)
    ensures
        ids(list).contains(b) <==> exists|i: int|
            0 <= i < list.len() && (#[trigger] list[i]).id == b,
        graph.contains_key(a) ==> (edge(graph, a, b) <==> graph[a].contains(b)),
        !graph.contains_key(a) ==> !edge(graph, a, b),
        agrees(graph, known) && known.contains_key(a) ==> graph.contains_key(a) && (edge(
            graph,
            a,
            b,
        ) <==> edge(known, a, b)),
        (forall|x: usize| #[trigger]
            known.contains_key(x) ==> graph.contains_key(x) && graph[x] == known[x]) ==> agrees(
            graph,
            known,
        ),
{
}

/// Transitive dependency holds of direct dependencies, is transitive, and holds of no more than
/// that demands.
pub proof fn law_transitive_dependencies(
    graph: Graph,
    a: usize,
    b: usize,
    c: usize,
    relation: spec_fn(usize, usize) -> bool,
)
    requires
        forall|x: usize, y: usize| #[trigger] edge(graph, x, y) ==> relation(x, y),
        forall|x: usize, y: usize, z: usize|
            #![trigger relation(x, y), relation(y, z)]
            relation(x, y) && relation(y, z) ==> relation(x, z),
    ensures
        edge(graph, a, b) ==> depends(graph, a, b),
        depends(graph, a, b) && depends(graph, b, c) ==> depends(graph, a, c),
        depends(graph, a, b) ==> relation(a, b),
        acyclic(graph) ==> !depends(graph, a, a),
{
    if edge(graph, a, b) {
        lemma_edge_depends(graph, a, b);
    }
    if depends(graph, a, b) {
        if depends(graph, b, c) {
            lemma_depends_transitive(graph, a, b, c);
        }
        let path = choose|path: Seq<usize>| #[trigger] connects(graph, path, a, b);
        lemma_path_is_in_relation(graph, path, relation);
    }
}

/// A transitive relation that has all direct dependencies has the ends of each path.
proof fn lemma_path_is_in_relation(
    graph: Graph,
    path: Seq<usize>,
    relation: spec_fn(usize, usize) -> bool,
)
    requires
        connects(graph, path, path.first(), path.last()),
        forall|x: usize, y: usize| #[trigger] edge(graph, x, y) ==> relation(x, y),
        forall|x: usize, y: usize, z: usize|
            #![trigger relation(x, y), relation(y, z)]
            relation(x, y) && relation(y, z) ==> relation(x, z),
    ensures
        relation(path.first(), path.last()),
    decreases path.len(),
{
    let x = path[path.len() - 2];
    assert(edge(graph, path[path.len() - 2], path[path.len() - 2 + 1]));
    assert(relation(x, path.last()));
    if path.len() > 2 {
        let shorter = path.drop_last();
        assert forall|i: int| 0 <= i < shorter.len() - 1 implies edge(
            graph,
            #[trigger] shorter[i],
            shorter[i + 1],
        ) by {
            assert(edge(graph, path[i], path[i + 1]));
        }
        assert(shorter.last() == x);
        lemma_path_is_in_relation(graph, shorter, relation);
    }
}

/// If `b` does not depend on `a`, a new dependency of `a` on `b` makes no circle.
pub proof fn law_new_dependency_makes_no_circle(graph: Graph, a: usize, b: usize)
    requires
        acyclic(graph),
        a != b,
        !depends(graph, b, a),
    ensures
        acyclic(with_dependency(graph, a, b)),
{
    let larger = with_dependency(graph, a, b);
    assert forall|x: usize| !#[trigger] depends(larger, x, x) by {
        if depends(larger, x, x) {
            let path = choose|path: Seq<usize>| #[trigger] connects(larger, path, x, x);
            lemma_path_with_dependency(graph, a, b, path);
            if x != a && x != b {
                lemma_depends_transitive(graph, b, x, a);
            }
        }
    }
}

/// Flushing a dependency, which takes it off a list, makes no circle.
pub proof fn law_fewer_dependencies_make_no_circle(graph: Graph, smaller: Graph)
    requires
        acyclic(graph),
        forall|x: usize, y: usize| edge(smaller, x, y) ==> #[trigger] edge(graph, x, y),
    ensures
        acyclic(smaller),
{
    assert forall|x: usize| !#[trigger] depends(smaller, x, x) by {
        if depends(smaller, x, x) {
            lemma_depends_monotonic(smaller, graph, x, x);
        }
    }
}

/// When the setting up of a dependency has succeeded, the other cache is on the list.
pub proof fn law_depend_on_takes_effect<K, V, D: ?Sized, E>(
    machine: DependOn<D>,
    before: CacheState<K, V, D>,
    event: Event<V, D, E>,
    after: CacheState<K, V, D>,
    step: DependOnStep<K, V, D, E>,
)
    requires
        machine.fits(before),
        machine.steps(before, event, after, step),
        step.ends(Ok(())),
    ensures
        depends_directly(after.flush_before, machine.other.id),
        after.entries == before.entries,
{
    if !depends_directly(before.flush_before, machine.other.id) {
        assert(after.flush_before[before.flush_before.len() as int].id == machine.other.id);
    }
}

/// Setting up a dependency never makes a circle, whatever the dependencies between the other
/// caches are: not even by way of other caches.
pub proof fn law_depend_on_makes_no_circle<K, V, D: ?Sized, E>(
    machine: DependOn<D>,
    before: CacheState<K, V, D>,
    event: Event<V, D, E>,
    after: CacheState<K, V, D>,
    step: DependOnStep<K, V, D, E>,
    graph: Graph,
)
    requires
        machine.fits(before),
        machine.awaits(event),
        machine.steps(before, event, after, step),
        machine.id != machine.other.id,
        acyclic(graph),
        graph.contains_key(machine.id),
        graph[machine.id] == ids(before.flush_before),
        machine.phase matches DependOnPhase::Checking(check) ==> agrees(
            graph,
            check.learned((event->Visited_0)@),
        ),
    ensures
        acyclic(graph.insert(machine.id, ids(after.flush_before))),
{
    let later = graph.insert(machine.id, ids(after.flush_before));
    if after.flush_before == before.flush_before {
        assert(later == graph);
    } else {
        assert(step.ends(Ok(())));
        let check = machine.phase->Checking_0;
        assert(agrees(graph, check.learned((event->Visited_0)@)));
        assert(!depends(graph, machine.other.id, machine.id));
        lemma_ids_push(before.flush_before, machine.other);
        law_new_dependency_makes_no_circle(graph, machine.id, machine.other.id);
        assert(later == with_dependency(graph, machine.id, machine.other.id));
    }
}

/// Setting up a dependency that is already set up changes nothing and needs no outside work but
/// the lock: the other cache stays on the list, exactly once.
pub proof fn law_depend_on_again_changes_nothing<K, V, D: ?Sized, E>(
    id: usize,
    other: Dependency<D>,
    before: CacheState<K, V, D>,
    after: CacheState<K, V, D>,
    step: DependOnStep<K, V, D, E>,
)
    requires
        before.wf(),
        depends_directly(before.flush_before, other.id),
        (DependOn { id, other, phase: DependOnPhase::LockingDependencies }).steps(
            before,
            Event::Locked,
            after,
            step,
        ),
    ensures
        after == before,
        step.ends(Ok(())),
        exists|i: int|
            0 <= i < after.flush_before.len() && (#[trigger] after.flush_before[i]).id == other.id
                && forall|j: int|
                0 <= j < after.flush_before.len() && (#[trigger] after.flush_before[j]).id
                    == other.id ==> j == i,
{
    let list = after.flush_before;
    let i = choose|i: int| 0 <= i < list.len() && (#[trigger] list[i]).id == other.id;
    assert(list[i].id == other.id);
    assert forall|j: int| 0 <= j < list.len() && (#[trigger] list[j]).id == other.id implies j
        == i by {
        if j < i {
            assert(list[j].id != list[i].id);
        } else if i < j {
            assert(list[i].id != list[j].id);
        }
    }
}

/// Retrieving an entry lists no dependency twice.
pub proof fn law_get_lists_once<K, V, D: ?Sized, E>(
    machine: GetOrInsert<K, V, D>,
    before: CacheState<K, V, D>,
    event: Event<V, D, E>,
    after: CacheState<K, V, D>,
    step: GetOrInsertStep<K, V, D, E>,
)
    requires
        before.wf(),
        machine.fits(before),
        machine.awaits(event),
        machine.steps(before, event, after, step),
    ensures
        listed_once(after.flush_before),
{
}

/// Inserting an object lists no dependency twice.
pub proof fn law_insert_lists_once<K, V, D: ?Sized, E>(
    machine: Insert<K, V, D>,
    before: CacheState<K, V, D>,
    event: Event<V, D, E>,
    after: CacheState<K, V, D>,
    step: InsertStep<K, V, D, E>,
)
    requires
        before.wf(),
        machine.fits(before),
        machine.awaits(event),
        machine.steps(before, event, after, step),
    ensures
        listed_once(after.flush_before),
{
}

/// Flushing the cache lists no dependency twice, even if one fails and goes back on the list.
pub proof fn law_flush_lists_once<K, V, D: ?Sized, E>(
    machine: Flush<D, E>,
    before: CacheState<K, V, D>,
    event: Event<V, D, E>,
    after: CacheState<K, V, D>,
    step: FlushStep<K, V, D, E>,
)
    requires
        before.wf(),
        machine.fits(before),
        machine.awaits(event),
        machine.steps(before, event, after, step),
    ensures
        listed_once(after.flush_before),
{
}

/// Invalidating the cache lists no dependency twice.
pub proof fn law_invalidate_lists_once<K, V, D: ?Sized, E>(
    machine: Invalidate<K>,
    before: CacheState<K, V, D>,
    after: CacheState<K, V, D>,
    step: InvalidateStep<K, V, D, E>,
)
    requires
        before.wf(),
        machine.fits(before),
        machine.steps(before, after, step),
    ensures
        listed_once(after.flush_before),
{
}

/// Setting up a dependency lists none twice.
pub proof fn law_depend_on_lists_once<K, V, D: ?Sized, E>(
    machine: DependOn<D>,
    before: CacheState<K, V, D>,
    event: Event<V, D, E>,
    after: CacheState<K, V, D>,
    step: DependOnStep<K, V, D, E>,
)
    requires
        before.wf(),
        machine.fits(before),
        machine.awaits(event),
        machine.steps(before, event, after, step),
    ensures
        listed_once(after.flush_before),
{
}

/// `right` holds of all handles in the list.
pub open spec fn all_right<D: ?Sized>(
    list: Seq<Dependency<D>>,
    right: spec_fn(Dependency<D>) -> bool,
) -> bool {
    forall|i: int| 0 <= i < list.len() ==> right(#[trigger] list[i])
}

/// `right` holds of all handles by which the search visits a cache, or will.
pub open spec fn searches_by<D: ?Sized>(
    check: CheckCircular<D>,
    right: spec_fn(Dependency<D>) -> bool,
) -> bool {
    &&& right(check.current())
    &&& all_right(check.pending(), right)
}

/// The search for circular dependencies visits caches only by handles that it was given or told:
/// if all of those are right, in whatever sense, so is each one that it asks to visit a cache by.
pub proof fn law_search_visits_by_told_handles<K, V, D: ?Sized>(
    check: CheckCircular<D>,
    dependencies: Seq<Dependency<D>>,
    step: CheckCircularStep<K, V, D>,
    right: spec_fn(Dependency<D>) -> bool,
)
    requires
        searches_by(check, right),
        all_right(dependencies, right),
        check.steps(dependencies, step),
    ensures
        step matches Step::Wait { next, action } ==> {
            &&& searches_by(next, right)
            &&& action matches Action::Visit(dependency) && right(dependency)
        },
{
    let told = check.pending() + dependencies;
    assert forall|dependency: Dependency<D>| told.contains(dependency) implies right(dependency) by {
        let i = choose|i: int| 0 <= i < told.len() && told[i] == dependency;
        if i < check.pending().len() {
            assert(right(check.pending()[i]));
        } else {
            assert(right(dependencies[i - check.pending().len()]));
        }
    }
    if let Step::Wait { next, action } = step {
        assert(told.contains(next.current()));
        assert forall|i: int| 0 <= i < next.pending().len() implies right(
            #[trigger] next.pending()[i],
        ) by {
            assert(told.contains(next.pending()[i]));
        }
    }
}

/// Setting up a dependency visits and flushes caches only by handles that it was given or told.
pub proof fn law_depend_on_uses_told_handles<K, V, D: ?Sized, E>(
    machine: DependOn<D>,
    before: CacheState<K, V, D>,
    event: Event<V, D, E>,
    after: CacheState<K, V, D>,
    step: DependOnStep<K, V, D, E>,
    right: spec_fn(Dependency<D>) -> bool,
)
    requires
        machine.awaits(event),
        machine.steps(before, event, after, step),
        right(machine.other),
        machine.phase matches DependOnPhase::Checking(check) ==> {
            &&& searches_by(check, right)
            &&& all_right((event->Visited_0)@, right)
        },
    ensures
        step matches Step::Wait { next, action } ==> {
            &&& right(next.other)
            &&& next.phase matches DependOnPhase::Checking(check) ==> searches_by(check, right)
            &&& action matches Action::Visit(dependency) ==> right(dependency)
            &&& action matches Action::UnlockAndFlush(dependency) ==> right(dependency)
        },
        all_right(before.flush_before, right) ==> all_right(after.flush_before, right),
{
    if let DependOnPhase::Checking(check) = machine.phase {
        let dependencies = (event->Visited_0)@;
        let checked = choose|checked: CheckCircularStep<K, V, D>| #[trigger]
            check.steps(dependencies, checked) && machine.enters_after(checked, before, after, step);
        law_search_visits_by_told_handles(check, dependencies, checked, right);
    }
}

/// IDs of a list with another cache at its end.
proof fn lemma_ids_push<D: ?Sized>(list: Seq<Dependency<D>>, dependency: Dependency<D>)
    ensures
        ids(list.push(dependency)) == ids(list).insert(dependency.id),
{
    let longer = list.push(dependency);
    assert(longer[list.len() as int] == dependency);
    assert forall|id: usize| ids(list).insert(dependency.id).contains(id) implies ids(
        longer,
    ).contains(id) by {
        if id != dependency.id {
            let i = choose|i: int| 0 <= i < list.len() && (#[trigger] list[i]).id == id;
            assert(longer[i].id == id);
        }
    }
    assert forall|id: usize| ids(longer).contains(id) implies ids(list).insert(
        dependency.id,
    ).contains(id) by {
        let i = choose|i: int| 0 <= i < longer.len() && (#[trigger] longer[i]).id == id;
        if i < list.len() {
            assert(list[i].id == id);
        }
    }
    assert(ids(longer) =~= ids(list).insert(dependency.id));
}

} // verus!
