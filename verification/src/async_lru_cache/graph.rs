//! Dependencies between caches.

use crate::async_lru_cache::state::Dependency;
use vstd::prelude::*;

verus! {

/// Which caches depend directly on which: maps a cache's ID to those of its dependencies.
pub type Graph = Map<usize, Set<usize>>;

/// `a` depends directly on `b`.
pub open spec fn edge(graph: Graph, a: usize, b: usize) -> bool {
    graph.contains_key(a) && graph[a].contains(b)
}

/// Each cache in `path`, but for the last, depends directly on the next.
pub open spec fn is_path(graph: Graph, path: Seq<usize>) -> bool {
    forall|i: int| 0 <= i < path.len() - 1 ==> edge(graph, #[trigger] path[i], path[i + 1])
}

/// `path` leads from `a` to `b`, in at least one step.
pub open spec fn connects(graph: Graph, path: Seq<usize>, a: usize, b: usize) -> bool {
    &&& path.len() >= 2
    &&& path.first() == a
    &&& path.last() == b
    &&& is_path(graph, path)
}

/// `b` is a transitive dependency of `a`.
pub open spec fn depends(graph: Graph, a: usize, b: usize) -> bool {
    exists|path: Seq<usize>| #[trigger] connects(graph, path, a, b)
}

/// No cache depends on itself.
pub open spec fn acyclic(graph: Graph) -> bool {
    forall|a: usize| !#[trigger] depends(graph, a, a)
}

/// The dependencies in `graph` are as `known`, for the caches that `known` has.
pub open spec fn agrees(graph: Graph, known: Graph) -> bool {
    forall|a: usize| #[trigger]
        known.contains_key(a) ==> graph.contains_key(a) && graph[a] == known[a]
}

/// IDs of the caches in a list.
pub open spec fn ids<D: ?Sized>(list: Seq<Dependency<D>>) -> Set<usize> {
    Set::new(|id: usize| exists|i: int| 0 <= i < list.len() && (#[trigger] list[i]).id == id)
}

/// A direct dependency is a transitive one.
pub proof fn lemma_edge_depends(graph: Graph, a: usize, b: usize)
    requires
        edge(graph, a, b),
    ensures
        depends(graph, a, b),
{
    assert(connects(graph, seq![a, b], a, b));
}

/// What a transitive dependency depends on directly is a transitive dependency, too.
pub proof fn lemma_depends_edge(graph: Graph, a: usize, b: usize, c: usize)
    requires
        depends(graph, a, b),
        edge(graph, b, c),
    ensures
        depends(graph, a, c),
{
    let path = choose|path: Seq<usize>| #[trigger] connects(graph, path, a, b);
    let longer = path.push(c);
    assert forall|i: int| 0 <= i < longer.len() - 1 implies edge(
        graph,
        #[trigger] longer[i],
        longer[i + 1],
    ) by {
        if i < path.len() - 1 {
            assert(edge(graph, path[i], path[i + 1]));
        }
    }
    assert(connects(graph, longer, a, c));
}

/// Dependency is transitive.
pub proof fn lemma_depends_transitive(graph: Graph, a: usize, b: usize, c: usize)
    requires
        depends(graph, a, b),
        depends(graph, b, c),
    ensures
        depends(graph, a, c),
{
    let first = choose|path: Seq<usize>| #[trigger] connects(graph, path, a, b);
    let second = choose|path: Seq<usize>| #[trigger] connects(graph, path, b, c);
    let whole = first + second.drop_first();
    assert forall|i: int| 0 <= i < whole.len() - 1 implies edge(
        graph,
        #[trigger] whole[i],
        whole[i + 1],
    ) by {
        if i < first.len() - 1 {
            assert(edge(graph, first[i], first[i + 1]));
        } else {
            let j = i - (first.len() - 1);
            assert(whole[i] == second[j]);
            assert(edge(graph, second[j], second[j + 1]));
        }
    }
    assert(connects(graph, whole, a, c));
}

/// A graph with the dependencies of another has its transitive dependencies.
pub proof fn lemma_depends_monotonic(graph: Graph, larger: Graph, a: usize, b: usize)
    requires
        depends(graph, a, b),
        forall|x: usize, y: usize| edge(graph, x, y) ==> #[trigger] edge(larger, x, y),
    ensures
        depends(larger, a, b),
{
    let path = choose|path: Seq<usize>| #[trigger] connects(graph, path, a, b);
    assert forall|i: int| 0 <= i < path.len() - 1 implies edge(
        larger,
        #[trigger] path[i],
        path[i + 1],
    ) by {
        assert(edge(graph, path[i], path[i + 1]));
    }
    assert(connects(larger, path, a, b));
}

/// From a cache in a set that no dependency leads out of, only caches in that set are reached.
pub proof fn lemma_closed_set(graph: Graph, closed: Set<usize>, path: Seq<usize>)
    requires
        is_path(graph, path),
        path.len() > 0,
        closed.contains(path.first()),
        forall|a: usize, b: usize|
            closed.contains(a) && #[trigger] edge(graph, a, b) ==> closed.contains(b),
    ensures
        closed.contains(path.last()),
    decreases path.len(),
{
    if path.len() > 1 {
        let shorter = path.drop_last();
        assert forall|i: int| 0 <= i < shorter.len() - 1 implies edge(
            graph,
            #[trigger] shorter[i],
            shorter[i + 1],
        ) by {
            assert(edge(graph, path[i], path[i + 1]));
        }
        lemma_closed_set(graph, closed, shorter);
        assert(edge(graph, path[path.len() - 2], path[path.len() - 2 + 1]));
    }
}

} // verus!
