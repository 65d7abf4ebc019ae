//! Cheapest routes over the travel graph.
use vstd::prelude::*;

use crate::arith;
use crate::graph::{TravelEdge, WorldGraph};
use crate::pos::BlockPos;
use crate::types::Cost;

verus! {

/// One leg of a high-level route.
#[derive(Clone, Copy, Debug)]
pub struct TravelStep {
    pub to_id: &'static str,
    /// Expected locraw mode after this step, if any.
    pub to_mode: Option<&'static str>,
    /// Destination anchor for a walking step.
    pub to_anchor: Option<BlockPos>,
    pub edge: TravelEdge,
}

/// Whether an edge joins two places of the graph.
pub open spec fn usable(graph: WorldGraph, leg: int) -> bool {
    &&& 0 <= leg < graph.edges@.len()
    &&& graph.edges@[leg].from < graph.places@.len()
    &&& graph.edges@[leg].to < graph.places@.len()
}

/// Where a sequence of legs from `start` ends.
pub open spec fn legs_end(graph: WorldGraph, start: int, legs: Seq<int>) -> int {
    if legs.len() == 0 {
        start
    } else {
        graph.edges@[legs.last()].to as int
    }
}

/// Whether each leg is usable and starts where the one before it ends.
pub open spec fn legs_connect(graph: WorldGraph, start: int, legs: Seq<int>) -> bool
    decreases legs.len(),
{
    legs.len() == 0 || {
        &&& legs_connect(graph, start, legs.drop_last())
        &&& usable(graph, legs.last())
        &&& graph.edges@[legs.last()].from == legs_end(graph, start, legs.drop_last())
    }
}

/// The sum of the costs of the legs.
pub open spec fn legs_cost(graph: WorldGraph, legs: Seq<int>) -> int
    decreases legs.len(),
{
    if legs.len() == 0 {
        0
    } else {
        legs_cost(graph, legs.drop_last()) + graph.edges@[legs.last()].cost
    }
}

/// The step that reports a leg.
pub open spec fn step_of(graph: WorldGraph, leg: int) -> TravelStep {
    let edge = graph.edges@[leg];
    let place = graph.places@[edge.to as int];
    TravelStep {
        to_id: place.id,
        to_mode: place.mode,
        to_anchor: place.anchor,
        edge: edge.edge,
    }
}

pub open spec fn steps_of(graph: WorldGraph, legs: Seq<int>) -> Seq<TravelStep> {
    legs.map_values(|leg: int| step_of(graph, leg))
}

/// Whether `legs` lead from `from` to `to` at the least cost, up to the end of
/// the cost range.
pub open spec fn cheapest(graph: WorldGraph, from: int, to: int, legs: Seq<int>) -> bool {
    &&& legs_connect(graph, from, legs)
    &&& legs_end(graph, from, legs) == to
    &&& forall|other: Seq<int>| #[trigger]
        legs_connect(graph, from, other) && legs_end(graph, from, other) == to
            ==> arith::clamp_u32(legs_cost(graph, legs)) <= legs_cost(graph, other)
}

pub open spec fn connected(graph: WorldGraph, from: int, to: int) -> bool {
    exists|legs: Seq<int>| #[trigger]
        legs_connect(graph, from, legs) && legs_end(graph, from, legs) == to
}

/// The progress of a cheapest-first search over places.
struct Survey {
    dist: Vec<Option<Cost>>,
    prev: Vec<Option<usize>>,
    done: Vec<bool>,
    /// The order in which places were finished.
    order: Ghost<Map<int, nat>>,
    finished: Ghost<nat>,
}

/// How place `v` was first reached at its recorded distance.
spec fn reached_well(graph: WorldGraph, survey: Survey, v: int) -> bool {
    match (survey.dist@[v], survey.prev@[v]) {
        (Some(d), Some(leg)) => {
            let before = graph.edges@[leg as int].from as int;
            &&& usable(graph, leg as int)
            &&& graph.edges@[leg as int].to == v
            &&& survey.done@[before]
            &&& survey.dist@[before] is Some
            &&& d == arith::clamp_u32(survey.dist@[before]->0 + graph.edges@[leg as int].cost)
            &&& survey.done@[v] ==> survey.order@[before] < survey.order@[v]
        },
        _ => false,
    }
}

spec fn sound(graph: WorldGraph, from: int, survey: Survey) -> bool {
    let n = graph.places@.len();
    &&& survey.dist@.len() == n
    &&& survey.prev@.len() == n
    &&& survey.done@.len() == n
    &&& 0 <= from < n
    &&& survey.dist@[from] == Some(0u32)
    &&& forall|v: int|
        0 <= v < n && v != from && #[trigger] survey.dist@[v] is Some ==> reached_well(
            graph,
            survey,
            v,
        )
    &&& forall|v: int|
        0 <= v < n && #[trigger] survey.done@[v] ==> survey.dist@[v] is Some && survey.order@[v]
            < survey.finished@
    // Finished places are no farther than places still waiting.
    &&& forall|u: int, v: int|
        0 <= u < n && 0 <= v < n && #[trigger] survey.done@[u] && !(#[trigger] survey.done@[v])
            && survey.dist@[v] is Some ==> survey.dist@[u]->0 <= survey.dist@[v]->0
}

/// Whether the far end of a leg is known at no more than the leg's cost.
spec fn relaxed(graph: WorldGraph, survey: Survey, leg: int) -> bool {
    let edge = graph.edges@[leg];
    survey.dist@[edge.to as int] is Some && survey.dist@[edge.to as int]->0 <= arith::clamp_u32(
        survey.dist@[edge.from as int]->0 + edge.cost,
    )
}

/// Every leg out of a finished place is relaxed.
spec fn settled(graph: WorldGraph, survey: Survey) -> bool {
    forall|leg: int| #[trigger]
        usable(graph, leg) && survey.done@[graph.edges@[leg].from as int] ==> relaxed(
            graph,
            survey,
            leg,
        )
}

/// A route either stays among finished places at no more than its cost, or
/// meets a waiting place at no more than its cost.
proof fn lemma_route_meets_waiting(
    graph: WorldGraph,
    from: int,
    survey: Survey,
    legs: Seq<int>,
)
    requires
        sound(graph, from, survey),
        settled(graph, survey),
        legs_connect(graph, from, legs),
    ensures
        ({
            let end = legs_end(graph, from, legs);
            ||| survey.dist@[end] is Some && survey.dist@[end]->0 <= legs_cost(graph, legs)
            ||| exists|v: int|
                0 <= v < graph.places@.len() && !(#[trigger] survey.done@[v])
                    && survey.dist@[v] is Some && survey.dist@[v]->0 <= legs_cost(graph, legs)
        }),
        0 <= legs_end(graph, from, legs) < graph.places@.len(),
        legs_cost(graph, legs) >= 0,
    decreases legs.len(),
{
    if legs.len() > 0 {
        let shorter = legs.drop_last();
        let leg = legs.last();
        lemma_route_meets_waiting(graph, from, survey, shorter);
        let mid = legs_end(graph, from, shorter);
        if exists|v: int|
            0 <= v < graph.places@.len() && !(#[trigger] survey.done@[v]) && survey.dist@[v] is Some
                && survey.dist@[v]->0 <= legs_cost(graph, shorter) {
            let v = choose|v: int|
                0 <= v < graph.places@.len() && !(#[trigger] survey.done@[v])
                    && survey.dist@[v] is Some && survey.dist@[v]->0 <= legs_cost(graph, shorter);
            assert(!survey.done@[v]);
        } else {
            assert(survey.done@[mid]);
            assert(usable(graph, leg));
            assert(relaxed(graph, survey, leg));
        }
    }
}

impl Survey {
    /// The waiting place with the least distance, and the least index among
    /// equals.
    fn nearest(&self, graph: &WorldGraph, from: usize) -> (found: Option<usize>)
        requires
            sound(*graph, from as int, *self),
        ensures
            match found {
                Some(u) => {
                    &&& u < graph.places@.len()
                    &&& !self.done@[u as int]
                    &&& self.dist@[u as int] is Some
                    &&& forall|v: int|
                        0 <= v < graph.places@.len() && !(#[trigger] self.done@[v])
                            && self.dist@[v] is Some ==> self.dist@[u as int]->0
                            <= self.dist@[v]->0
                },
                None => forall|v: int|
                    0 <= v < graph.places@.len() && self.dist@[v] is Some
                        ==> #[trigger] self.done@[v],
            },
    {
        let n: usize = graph.places.len();
        let mut found: Option<usize> = None;
        let mut least: Cost = 0;
        let mut v: usize = 0;
        while v < n
            invariant
                n == graph.places@.len(),
                v <= n,
                sound(*graph, from as int, *self),
                match found {
                    Some(u) => {
                        &&& u < v
                        &&& !self.done@[u as int]
                        &&& self.dist@[u as int] == Some(least)
                        &&& forall|w: int|
                            0 <= w < v && !(#[trigger] self.done@[w]) && self.dist@[w] is Some
                                ==> least <= self.dist@[w]->0
                    },
                    None => forall|w: int|
                        0 <= w < v && self.dist@[w] is Some ==> #[trigger] self.done@[w],
                },
            decreases n - v,
        {
            if !self.done[v] {
                if let Some(d) = self.dist[v] {
                    if found.is_none() || d < least {
                        found = Some(v);
                        least = d;
                    }
                }
            }
            v += 1;
        }
        found
    }

    /// Finishes place `u` and relaxes every leg out of it.
    fn finish(&mut self, graph: &WorldGraph, from: usize, u: usize)
        requires
            sound(*graph, from as int, *old(self)),
            settled(*graph, *old(self)),
            u < graph.places@.len(),
            !old(self).done@[u as int],
            old(self).dist@[u as int] is Some,
            forall|v: int|
                0 <= v < graph.places@.len() && !(#[trigger] old(self).done@[v])
                    && old(self).dist@[v] is Some ==> old(self).dist@[u as int]->0
                    <= old(self).dist@[v]->0,
        ensures
            sound(*graph, from as int, *final(self)),
            settled(*graph, *final(self)),
            final(self).finished@ == old(self).finished@ + 1,
            final(self).done@ == old(self).done@.update(u as int, true),
            final(self).dist@[u as int] == old(self).dist@[u as int],
    {
        let ghost n = graph.places@.len();
        let here: Cost = match self.dist[u] {
            Some(d) => d,
            None => 0,
        };
        self.done[u] = true;
        proof {
            self.order@ = self.order@.insert(u as int, self.finished@);
            self.finished@ = self.finished@ + 1;
            assert forall|v: int|
                0 <= v < n && v != from && #[trigger] self.dist@[v] is Some implies reached_well(
                *graph,
                *self,
                v,
            ) by {
                assert(reached_well(*graph, *old(self), v));
            }
            assert forall|a: int, b: int|
                0 <= a < n && 0 <= b < n && #[trigger] self.done@[a] && !(#[trigger] self.done@[b])
                    && self.dist@[b] is Some implies self.dist@[a]->0 <= self.dist@[b]->0 by {
                assert(!old(self).done@[b]);
                if a != u {
                    assert(old(self).done@[a]);
                }
            }
        }
        let mut leg: usize = 0;
        while leg < graph.edges.len()
            invariant
                n == graph.places@.len(),
                leg <= graph.edges@.len(),
                u < n,
                from < n,
                sound(*graph, from as int, *self),
                self.done@[u as int],
                self.dist@[u as int] == Some(here),
                self.done@ == old(self).done@.update(u as int, true),
                self.finished@ == old(self).finished@ + 1,
                forall|v: int|
                    0 <= v < n && #[trigger] self.done@[v] ==> self.dist@[v]->0 <= here,
                forall|k: int| #[trigger]
                    usable(*graph, k) && self.done@[graph.edges@[k].from as int] && (
                    graph.edges@[k].from != u || k < leg) ==> relaxed(*graph, *self, k),
            decreases graph.edges@.len() - leg,
        {
            let edge = graph.edges[leg];
            if edge.from == u && edge.to < graph.places.len() {
                let candidate: Cost = here.saturating_add(edge.cost);
                let better: bool = match self.dist[edge.to] {
                    Some(d) => candidate < d,
                    None => true,
                };
                if better {
                    let ghost before = *self;
                    assert(!self.done@[edge.to as int]);
                    self.dist[edge.to] = Some(candidate);
                    self.prev[edge.to] = Some(leg);
                    proof {
                        let to = edge.to as int;
                        assert(to != from);
                        assert(usable(*graph, leg as int));
                        assert forall|v: int|
                            0 <= v < n && v != from
                                && #[trigger] self.dist@[v] is Some implies reached_well(
                            *graph,
                            *self,
                            v,
                        ) by {
                            if v != to {
                                assert(before.dist@[v] is Some);
                                assert(reached_well(*graph, before, v));
                            }
                        }
                        assert forall|k: int| #[trigger]
                            usable(*graph, k) && self.done@[graph.edges@[k].from as int] && (
                            graph.edges@[k].from != u || k <= leg) implies relaxed(
                            *graph,
                            *self,
                            k,
                        ) by {
                            if k != leg {
                                assert(relaxed(*graph, before, k));
                            }
                        }
                    }
                } else {
                    assert(relaxed(*graph, *self, leg as int));
                }
            }
            leg += 1;
        }
    }

    /// The legs that lead from `from` to the finished place `to`.
    fn trace(&self, graph: &WorldGraph, from: usize, to: usize) -> (legs: Vec<usize>)
        requires
            sound(*graph, from as int, *self),
            to < graph.places@.len(),
            self.done@[to as int],
        ensures
            ({
                let path = legs@.map_values(|leg: usize| leg as int);
                &&& legs_connect(*graph, from as int, path)
                &&& legs_end(*graph, from as int, path) == to
                &&& arith::clamp_u32(legs_cost(*graph, path)) == self.dist@[to as int]->0
            }),
        decreases self.order@[to as int],
    {
        if to == from {
            let legs: Vec<usize> = Vec::new();
            assert(legs@.map_values(|leg: usize| leg as int) =~= Seq::<int>::empty());
            return legs;
        }
        assert(self.dist@[to as int] is Some);
        assert(reached_well(*graph, *self, to as int));
        let leg: usize = match self.prev[to] {
            Some(leg) => leg,
            None => 0,
        };
        let mut legs = self.trace(graph, from, graph.edges[leg].from);
        let ghost shorter = legs@.map_values(|leg: usize| leg as int);
        legs.push(leg);
        proof {
            let path = legs@.map_values(|leg: usize| leg as int);
            assert(path.drop_last() =~= shorter);
            assert(path.last() == leg);
            lemma_cost_nonneg(*graph, shorter);
        }
        legs
    }
}

/// The number of places not finished yet.
spec fn unfinished(done: Seq<bool>) -> nat
    decreases done.len(),
{
    if done.len() == 0 {
        0
    } else {
        unfinished(done.drop_last()) + (if done.last() {
            0nat
        } else {
            1nat
        })
    }
}

proof fn lemma_finish_one(done: Seq<bool>, u: int)
    requires
        0 <= u < done.len(),
        !done[u],
    ensures
        unfinished(done.update(u, true)) < unfinished(done),
    decreases done.len(),
{
    let after = done.update(u, true);
    if u == done.len() - 1 {
        assert(after.drop_last() =~= done.drop_last());
    } else {
        assert(after.drop_last() =~= done.drop_last().update(u, true));
        lemma_finish_one(done.drop_last(), u);
    }
}

proof fn lemma_legs_usable(graph: WorldGraph, from: int, legs: Seq<int>, k: int)
    requires
        legs_connect(graph, from, legs),
        0 <= k < legs.len(),
    ensures
        usable(graph, legs[k]),
    decreases legs.len(),
{
    if k < legs.len() - 1 {
        lemma_legs_usable(graph, from, legs.drop_last(), k);
    }
}

proof fn lemma_cost_nonneg(graph: WorldGraph, legs: Seq<int>)
    ensures
        legs_cost(graph, legs) >= 0,
    decreases legs.len(),
{
    if legs.len() > 0 {
        lemma_cost_nonneg(graph, legs.drop_last());
    }
}

/// Finds the cheapest route between two places.
///
/// Returns an empty route when `from == to`, or `None` when either place is
/// invalid or unreachable. Edges to places outside the graph are ignored.
pub fn route(graph: &WorldGraph, from: usize, to: usize) -> (found: Option<Vec<TravelStep>>)
    ensures
        match found {
            Some(steps) => {
                &&& from < graph.places@.len()
                &&& to < graph.places@.len()
                &&& from == to ==> steps@.len() == 0
                &&& exists|legs: Seq<int>| #[trigger]
                    cheapest(*graph, from as int, to as int, legs) && steps@ == steps_of(
                        *graph,
                        legs,
                    )
            },
            None => {
                ||| from >= graph.places@.len()
                ||| to >= graph.places@.len()
                ||| !connected(*graph, from as int, to as int)
            },
        },
{
    let n: usize = graph.places.len();
    if from >= n || to >= n {
        return None;
    }
    if from == to {
        let steps: Vec<TravelStep> = Vec::new();
        proof {
            let legs = Seq::<int>::empty();
            assert(cheapest(*graph, from as int, to as int, legs)) by {
                assert forall|other: Seq<int>| #[trigger]
                    legs_connect(*graph, from as int, other) && legs_end(
                        *graph,
                        from as int,
                        other,
                    ) == to implies arith::clamp_u32(legs_cost(*graph, legs)) <= legs_cost(
                    *graph,
                    other,
                ) by {
                    lemma_cost_nonneg(*graph, other);
                }
            }
            assert(steps@ =~= steps_of(*graph, legs));
        }
        return Some(steps);
    }
    let mut dist: Vec<Option<Cost>> = Vec::new();
    let mut prev: Vec<Option<usize>> = Vec::new();
    let mut done: Vec<bool> = Vec::new();
    let mut i: usize = 0;
    while i < n
        invariant
            i <= n,
            from < n,
            dist@.len() == i,
            prev@.len() == i,
            done@.len() == i,
            forall|v: int|
                0 <= v < i ==> #[trigger] dist@[v] == (if v == from {
                    Some(0u32)
                } else {
                    None
                }),
            forall|v: int| 0 <= v < i ==> !(#[trigger] done@[v]),
        decreases n - i,
    {
        dist.push(
            if i == from {
                Some(0)
            } else {
                None
            },
        );
        prev.push(None);
        done.push(false);
        i += 1;
    }
    let mut survey = Survey {
        dist,
        prev,
        done,
        order: Ghost(Map::empty()),
        finished: Ghost(0),
    };
    loop
        invariant_except_break
            sound(*graph, from as int, survey),
            settled(*graph, survey),
            n == graph.places@.len(),
            from < n,
            to < n,
            !survey.done@[to as int],
        ensures
            n == graph.places@.len(),
            from < n,
            to < n,
            sound(*graph, from as int, survey),
            survey.done@[to as int] ==> forall|legs: Seq<int>| #[trigger]
                legs_connect(*graph, from as int, legs) && legs_end(*graph, from as int, legs)
                    == to ==> survey.dist@[to as int]->0 <= legs_cost(*graph, legs),
            !survey.done@[to as int] ==> !connected(*graph, from as int, to as int),
        decreases unfinished(survey.done@),
    {
        let u: usize = match survey.nearest(graph, from) {
            None => {
                proof {
                    if connected(*graph, from as int, to as int) {
                        let legs = choose|legs: Seq<int>| #[trigger]
                            legs_connect(*graph, from as int, legs) && legs_end(
                                *graph,
                                from as int,
                                legs,
                            ) == to;
                        lemma_route_meets_waiting(*graph, from as int, survey, legs);
                    }
                }
                break;
            },
            Some(u) => u,
        };
        proof {
            if u == to {
                assert forall|legs: Seq<int>| #[trigger]
                    legs_connect(*graph, from as int, legs) && legs_end(*graph, from as int, legs)
                        == to implies survey.dist@[to as int]->0 <= legs_cost(*graph, legs) by {
                    lemma_route_meets_waiting(*graph, from as int, survey, legs);
                }
            }
            lemma_finish_one(survey.done@, u as int);
        }
        survey.finish(graph, from, u);
        if u == to {
            break;
        }
    }
    if !survey.done[to] {
        return None;
    }
    let legs = survey.trace(graph, from, to);
    let ghost path = legs@.map_values(|leg: usize| leg as int);
    let mut steps: Vec<TravelStep> = Vec::new();
    let mut k: usize = 0;
    while k < legs.len()
        invariant
            k <= legs@.len(),
            path == legs@.map_values(|leg: usize| leg as int),
            legs_connect(*graph, from as int, path),
            steps@.len() == k,
            forall|j: int| 0 <= j < k ==> #[trigger] steps@[j] == step_of(*graph, path[j]),
        decreases legs@.len() - k,
    {
        proof {
            lemma_legs_usable(*graph, from as int, path, k as int);
        }
        let edge = graph.edges[legs[k]];
        let place = graph.places[edge.to];
        steps.push(
            TravelStep {
                to_id: place.id,
                to_mode: place.mode,
                to_anchor: place.anchor,
                edge: edge.edge,
            },
        );
        k += 1;
    }
    proof {
        assert(steps@ =~= steps_of(*graph, path));
        assert(cheapest(*graph, from as int, to as int, path));
    }
    Some(steps)
}

} // verus!
