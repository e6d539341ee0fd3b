//! Search for circular dependencies.

use crate::async_lru_cache::graph::{
    agrees, connects, depends, edge, ids, lemma_closed_set, lemma_depends_edge,
    lemma_depends_monotonic, lemma_edge_depends, Graph,
};
use crate::async_lru_cache::state::Dependency;
use crate::async_lru_cache::step::{Action, Step};
use vstd::prelude::*;

verus! {

/// Check whether a cache is a transitive dependency of another.
///
/// Visits, one after the other, the caches that the other one depends on.
pub struct CheckCircular<D: ?Sized> {
    /// The cache that the search started from.
    origin: usize,
    /// The cache that is searched for.
    target: usize,
    /// The cache that is being visited.
    current: Dependency<D>,
    /// Caches that are still to be visited.
    pending: Vec<Dependency<D>>,
    /// All caches that were met, visited or not.
    met: Vec<usize>,
    /// Dependencies of the caches that were visited.
    known: Ghost<Graph>,
}

/// How the search goes on.
pub type CheckCircularStep<K, V, D> = Step<CheckCircular<D>, Action<K, V, D>, bool>;

impl<D: ?Sized> CheckCircular<D> {
    /// ID of the cache that the search started from.
    pub closed spec fn origin(self) -> usize {
        self.origin
    }

    /// ID of the cache that is searched for.
    pub closed spec fn target(self) -> usize {
        self.target
    }

    /// The cache that is being visited.
    pub closed spec fn current(self) -> Dependency<D> {
        self.current
    }

    /// Dependencies of the caches that were visited.
    pub closed spec fn known(self) -> Graph {
        self.known@
    }

    /// Caches that are still to be visited after the current one.
    pub closed spec fn pending(self) -> Seq<Dependency<D>> {
        self.pending@
    }

    /// What will be known once the cache being visited has told its dependencies.
    pub open spec fn learned(self, dependencies: Seq<Dependency<D>>) -> Graph {
        self.known().insert(self.current().id, ids(dependencies))
    }

    /// All that is known was met on the way from the origin, and the target was not.
    pub closed spec fn wf(self) -> bool {
        &&& self.met@.contains(self.origin)
        &&& self.met@.contains(self.current.id)
        &&& self.known@.contains_key(self.origin) || self.current.id == self.origin
        &&& !self.known@.contains_key(self.current.id)
        &&& forall|i: int|
            0 <= i < self.pending@.len() ==> {
                &&& self.met@.contains((#[trigger] self.pending@[i]).id)
                &&& !self.known@.contains_key(self.pending@[i].id)
                &&& self.pending@[i].id != self.current.id
            }
        &&& forall|i: int, j: int|
            0 <= i < j < self.pending@.len() ==> (#[trigger] self.pending@[i]).id != (
            #[trigger] self.pending@[j]).id
        &&& forall|id: usize| #[trigger]
            self.known@.contains_key(id) ==> self.met@.contains(id)
        &&& forall|id: usize| #[trigger]
            self.met@.contains(id) ==> {
                ||| self.known@.contains_key(id)
                ||| id == self.current.id
                ||| exists|i: int| 0 <= i < self.pending@.len() && (#[trigger] self.pending@[i]).id == id
            }
        &&& forall|a: usize, b: usize| #[trigger]
            edge(self.known@, a, b) ==> self.met@.contains(b) && b != self.target
        &&& forall|id: usize| #[trigger]
            self.met@.contains(id) ==> id == self.origin || depends(self.known@, self.origin, id)
    }

    /// How the search goes on once the cache being visited has told its dependencies: it ends as
    /// soon as the answer is known, and else visits a cache that was not visited before, by a
    /// handle that a visited cache has told.
    pub open spec fn steps<K, V>(
        self,
        dependencies: Seq<Dependency<D>>,
        step: CheckCircularStep<K, V, D>,
    ) -> bool {
        match step {
            Step::Wait { next, action } => {
                &&& next.wf()
                &&& next.origin() == self.origin()
                &&& next.target() == self.target()
                &&& next.known() == self.learned(dependencies)
                &&& action == Action::<K, V, D>::Visit(next.current())
                &&& (self.pending() + dependencies).contains(next.current())
                &&& forall|i: int|
                    0 <= i < next.pending().len() ==> (self.pending() + dependencies).contains(
                        #[trigger] next.pending()[i],
                    )
                &&& !next.known().contains_key(next.current().id)
                &&& depends(next.known(), next.origin(), next.current().id)
                &&& !depends(next.known(), next.origin(), next.target())
            },
            Step::Done(found) => forall|graph: Graph| #[trigger]
                agrees(graph, self.learned(dependencies)) ==> found == depends(
                    graph,
                    self.origin(),
                    self.target(),
                ),
        }
    }

    /// Start to search for the cache with the ID `target` among the transitive dependencies of
    /// `origin`.
    pub fn start<K, V>(origin: Dependency<D>, target: usize) -> (step: CheckCircularStep<K, V, D>)
        ensures
            step matches Step::Wait { next, action } && {
                &&& next.wf()
                &&& next.origin() == origin.id
                &&& next.target() == target
                &&& next.current() == origin
                &&& next.pending() == Seq::<Dependency<D>>::empty()
                &&& next.known() == Map::<usize, Set<usize>>::empty()
                &&& action == Action::<K, V, D>::Visit(origin)
            },
    {
        let mut met: Vec<usize> = Vec::new();
        met.push(origin.id);
        assert(met@[0] == origin.id);
        let action = Action::Visit(origin.share());
        let next = CheckCircular {
            origin: origin.id,
            target,
            current: origin,
            pending: Vec::new(),
            met,
            known: Ghost(Map::empty()),
        };
        Step::Wait { next, action }
    }

    /// Everything known when some of the caches that were met are still to be visited, and none
    /// is being visited.
    spec fn between_visits(
        origin: usize,
        target: usize,
        pending: Seq<Dependency<D>>,
        met: Seq<usize>,
        known: Graph,
    ) -> bool {
        &&& known.contains_key(origin)
        &&& forall|i: int|
            0 <= i < pending.len() ==> met.contains((#[trigger] pending[i]).id)
                && !known.contains_key(pending[i].id)
        &&& forall|i: int, j: int|
            0 <= i < j < pending.len() ==> (#[trigger] pending[i]).id != (#[trigger] pending[j]).id
        &&& forall|id: usize| #[trigger] known.contains_key(id) ==> met.contains(id)
        &&& forall|id: usize| #[trigger]
            met.contains(id) ==> known.contains_key(id) || exists|i: int|
                0 <= i < pending.len() && (#[trigger] pending[i]).id == id
        &&& forall|id: usize| #[trigger]
            met.contains(id) ==> id == origin || depends(known, origin, id)
    }

    /// Go on with the search when the cache being visited has told its dependencies.
    pub fn step<K, V>(self, dependencies: Vec<Dependency<D>>) -> (step: CheckCircularStep<K, V, D>)
        requires
            self.wf(),
        ensures
            self.steps(dependencies@, step),
    {
        let ghost learned = self.learned(dependencies@);
        proof {
            self.lemma_learned(dependencies@);
        }
        for i in 0..dependencies.len()
            invariant
                self.wf(),
                learned == self.learned(dependencies@),
                self.met@.contains(self.current.id),
                self.current.id == self.origin || depends(learned, self.origin, self.current.id),
                forall|j: int|
                    0 <= j < i ==> (#[trigger] dependencies@[j]).id != self.target,
        {
            if dependencies[i].id == self.target {
                proof {
                    assert(edge(learned, self.current.id, self.target));
                    self.lemma_found(learned);
                }
                return Step::Done(true);
            }
        }
        let CheckCircular { origin, target, current, pending, met, known } = self;
        let mut pending = pending;
        let mut met = met;
        let ghost handles = self.pending() + dependencies@;
        assert forall|j: int| 0 <= j < pending@.len() implies handles.contains(
            #[trigger] pending@[j],
        ) by {
            assert(handles[j] == pending@[j]);
        }
        for i in 0..dependencies.len()
            invariant
                learned.contains_key(current.id),
                learned[current.id] == ids(dependencies@),
                current.id == origin || depends(learned, origin, current.id),
                Self::between_visits(origin, target, pending@, met@, learned),
                handles == self.pending() + dependencies@,
                forall|j: int| 0 <= j < pending@.len() ==> handles.contains(#[trigger] pending@[j]),
                forall|id: usize| self.met@.contains(id) ==> #[trigger] met@.contains(id),
                forall|j: int| 0 <= j < i ==> met@.contains((#[trigger] dependencies@[j]).id),
        {
            let id: usize = dependencies[i].id;
            if !contains(&met, id) {
                let ghost met_before = met@;
                let ghost pending_before = pending@;
                met.push(id);
                pending.push(dependencies[i].share());
                proof {
                    assert(handles[self.pending().len() + i] == dependencies@[i as int]);
                    assert(edge(learned, current.id, id));
                    if current.id == origin {
                        lemma_edge_depends(learned, origin, id);
                    } else {
                        lemma_depends_edge(learned, origin, current.id, id);
                    }
                    assert(met@[met_before.len() as int] == id);
                    assert forall|x: usize| met_before.contains(x) implies #[trigger] met@.contains(
                        x,
                    ) by {
                        let j = choose|j: int| 0 <= j < met_before.len() && met_before[j] == x;
                        assert(met@[j] == x);
                    }
                    assert forall|x: usize| #[trigger] met@.contains(x) implies x == id
                        || met_before.contains(x) by {
                        let j = choose|j: int| 0 <= j < met@.len() && met@[j] == x;
                        if j < met_before.len() {
                            assert(met_before[j] == x);
                        }
                    }
                    assert forall|x: usize| #[trigger] met@.contains(x) implies learned.contains_key(
                        x,
                    ) || exists|j: int| 0 <= j < pending@.len() && (#[trigger] pending@[j]).id
                        == x by {
                        if x == id {
                            assert(pending@[pending_before.len() as int].id == id);
                        } else if !learned.contains_key(x) {
                            let j = choose|j: int|
                                0 <= j < pending_before.len() && (#[trigger] pending_before[j]).id
                                    == x;
                            assert(pending@[j].id == x);
                        }
                    }
                }
            }
        }
        proof {
            assert forall|a: usize, b: usize| #[trigger] edge(learned, a, b) implies met@.contains(b)
                && b != target by {
                if a == current.id {
                    let j = choose|j: int|
                        0 <= j < dependencies@.len() && (#[trigger] dependencies@[j]).id == b;
                    assert(dependencies@[j].id != target);
                } else {
                    assert(edge(known@, a, b));
                }
            }
        }
        let ghost pending_before = pending@;
        match pending.pop() {
            Some(next) => {
                let action = Action::Visit(next.share());
                proof {
                    assert(pending_before.last() == next);
                    assert(handles.contains(pending_before[pending_before.len() - 1]));
                    assert(met@.contains(pending_before[pending_before.len() - 1].id));
                    assert forall|x: usize| #[trigger] met@.contains(x) implies {
                        ||| learned.contains_key(x)
                        ||| x == next.id
                        ||| exists|j: int| 0 <= j < pending@.len() && (#[trigger] pending@[j]).id == x
                    } by {
                        if !learned.contains_key(x) {
                            let j = choose|j: int|
                                0 <= j < pending_before.len() && (#[trigger] pending_before[j]).id
                                    == x;
                            if j < pending@.len() {
                                assert(pending@[j].id == x);
                            }
                        }
                    }
                    lemma_not_reached(learned, origin, target);
                }
                let next = CheckCircular {
                    origin,
                    target,
                    current: next,
                    pending,
                    met,
                    known: Ghost(learned),
                };
                assert(handles.contains(next.current()));
                assert forall|i: int| 0 <= i < next.pending().len() implies handles.contains(
                    #[trigger] next.pending()[i],
                ) by {
                    assert(pending_before[i] == next.pending()[i]);
                }
                Step::Wait { next, action }
            },
            None => {
                proof {
                    assert forall|graph: Graph| #[trigger] agrees(graph, learned) implies !depends(
                        graph,
                        origin,
                        target,
                    ) by {
                        lemma_nothing_left(graph, learned, origin, target);
                    }
                }
                Step::Done(false)
            },
        }
    }

    /// What is learned from the cache being visited is in line with what was known.
    proof fn lemma_learned(self, dependencies: Seq<Dependency<D>>)
        requires
            self.wf(),
        ensures
            Self::between_visits(
                self.origin,
                self.target,
                self.pending@,
                self.met@,
                self.learned(dependencies),
            ),
            self.current.id == self.origin || depends(
                self.learned(dependencies),
                self.origin,
                self.current.id,
            ),
    {
        let learned = self.learned(dependencies);
        assert forall|id: usize| #[trigger] self.met@.contains(id) implies id == self.origin
            || depends(learned, self.origin, id) by {
            if id != self.origin {
                assert forall|a: usize, b: usize| edge(self.known@, a, b) implies #[trigger] edge(
                    learned,
                    a,
                    b,
                ) by {}
                lemma_depends_monotonic(self.known@, learned, self.origin, id);
            }
        }
    }

    /// A cache that depends directly on the target was met.
    proof fn lemma_found(self, learned: Graph)
        requires
            self.current.id == self.origin || depends(learned, self.origin, self.current.id),
            edge(learned, self.current.id, self.target),
        ensures
            forall|graph: Graph| #[trigger]
                agrees(graph, learned) ==> depends(graph, self.origin, self.target),
    {
        if self.current.id == self.origin {
            lemma_edge_depends(learned, self.origin, self.target);
        } else {
            lemma_depends_edge(learned, self.origin, self.current.id, self.target);
        }
        assert forall|graph: Graph| #[trigger] agrees(graph, learned) implies depends(
            graph,
            self.origin,
            self.target,
        ) by {
            lemma_depends_monotonic(learned, graph, self.origin, self.target);
        }
    }
}

/// Whether `id` is in `list`.
fn contains(list: &Vec<usize>, id: usize) -> (found: bool)
    ensures
        found <==> list@.contains(id),
{
    for i in 0..list.len()
        invariant
            forall|j: int| 0 <= j < i ==> list@[j] != id,
    {
        if list[i] == id {
            return true;
        }
    }
    false
}

/// A cache that no other depends on directly is no transitive dependency.
proof fn lemma_not_reached(graph: Graph, origin: usize, target: usize)
    requires
        forall|a: usize, b: usize| #[trigger] edge(graph, a, b) ==> b != target,
    ensures
        !depends(graph, origin, target),
{
    if depends(graph, origin, target) {
        let path = choose|path: Seq<usize>| #[trigger] connects(graph, path, origin, target);
        assert(edge(graph, path[path.len() - 2], path[path.len() - 2 + 1]));
    }
}

/// If all transitive dependencies are known, and none depends directly on the target, the target
/// is not among them.
proof fn lemma_nothing_left(graph: Graph, known: Graph, origin: usize, target: usize)
    requires
        agrees(graph, known),
        known.contains_key(origin),
        forall|a: usize, b: usize| #[trigger]
            edge(known, a, b) ==> known.contains_key(b) && b != target,
    ensures
        !depends(graph, origin, target),
{
    if depends(graph, origin, target) {
        let path = choose|path: Seq<usize>| #[trigger] connects(graph, path, origin, target);
        let shorter = path.drop_last();
        assert forall|i: int| 0 <= i < shorter.len() - 1 implies edge(
            graph,
            #[trigger] shorter[i],
            shorter[i + 1],
        ) by {
            assert(edge(graph, path[i], path[i + 1]));
        }
        assert forall|a: usize, b: usize|
            known.dom().contains(a) && #[trigger] edge(graph, a, b) implies known.dom().contains(
            b,
        ) by {
            assert(edge(known, a, b));
        }
        lemma_closed_set(graph, known.dom(), shorter);
        let last = path[path.len() - 2];
        assert(edge(graph, last, path[path.len() - 2 + 1]));
        assert(edge(known, last, target));
    }
}

} // verus!
