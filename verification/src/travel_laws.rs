//! What a route between places is worth.
use vstd::prelude::*;

use crate::graph::WorldGraph;
use crate::router;

verus! {

/// Whether an edge of a graph leads from one of its places to another.
pub open spec fn leads(graph: WorldGraph, leg: int, from: int, to: int) -> bool {
    &&& 0 <= leg < graph.edges@.len()
    &&& graph.edges@[leg].from == from
    &&& graph.edges@[leg].to == to
    &&& from < graph.places@.len() && to < graph.places@.len()
}

/// Whether legs lead through some stops one after the other.
pub open spec fn passes_through(graph: WorldGraph, stops: Seq<int>, legs: Seq<int>) -> bool {
    &&& stops.len() == legs.len() + 1
    &&& forall|i: int|
        0 <= i < legs.len() ==> leads(graph, #[trigger] legs[i], stops[i], stops[i + 1])
}

/// What legs cost together.
pub open spec fn fare(graph: WorldGraph, legs: Seq<int>) -> int
    decreases legs.len(),
{
    if legs.len() == 0 {
        0
    } else {
        graph.edges@[legs[0]].cost + fare(graph, legs.drop_first())
    }
}

proof fn lemma_fare(graph: WorldGraph, legs: Seq<int>)
    ensures
        fare(graph, legs) == router::legs_cost(graph, legs),
    decreases legs.len(),
{
    if legs.len() > 0 {
        lemma_fare(graph, legs.drop_last());
        lemma_fare_last(graph, legs);
    }
}

proof fn lemma_fare_last(graph: WorldGraph, legs: Seq<int>)
    requires
        legs.len() > 0,
    ensures
        fare(graph, legs) == fare(graph, legs.drop_last()) + graph.edges@[legs.last()].cost,
    decreases legs.len(),
{
    if legs.len() > 1 {
        lemma_fare_last(graph, legs.drop_first());
        assert(legs.drop_first().drop_last() =~= legs.drop_last().drop_first());
        assert(legs.drop_last()[0] == legs[0]);
    } else {
        assert(legs.drop_last() =~= Seq::empty());
        assert(legs.drop_first() =~= Seq::empty());
    }
}

proof fn lemma_connects(graph: WorldGraph, stops: Seq<int>, legs: Seq<int>)
    requires
        passes_through(graph, stops, legs),
    ensures
        router::legs_connect(graph, stops[0], legs),
        router::legs_end(graph, stops[0], legs) == stops.last(),
    decreases legs.len(),
{
    if legs.len() > 0 {
        let shorter = legs.drop_last();
        let before = stops.drop_last();
        assert forall|i: int| 0 <= i < shorter.len() implies leads(
            graph,
            #[trigger] shorter[i],
            before[i],
            before[i + 1],
        ) by {
            assert(leads(graph, legs[i], stops[i], stops[i + 1]));
        }
        lemma_connects(graph, before, shorter);
        let last = legs.len() - 1;
        assert(leads(graph, legs[last], stops[last], stops[last + 1]));
        assert(before[0] == stops[0]);
        assert(before.last() == stops[last]);
    }
}

proof fn lemma_stops(graph: WorldGraph, start: int, legs: Seq<int>) -> (stops: Seq<int>)
    requires
        router::legs_connect(graph, start, legs),
    ensures
        passes_through(graph, stops, legs),
        stops[0] == start,
        stops.last() == router::legs_end(graph, start, legs),
    decreases legs.len(),
{
    if legs.len() == 0 {
        seq![start]
    } else {
        let shorter = legs.drop_last();
        let before = lemma_stops(graph, start, shorter);
        let end = graph.edges@[legs.last()].to as int;
        let stops = before.push(end);
        assert forall|i: int| 0 <= i < legs.len() implies leads(
            graph,
            #[trigger] legs[i],
            stops[i],
            stops[i + 1],
        ) by {
            if i < shorter.len() {
                assert(leads(graph, shorter[i], before[i], before[i + 1]));
            }
        }
        stops
    }
}

/// A route that is found leads from stop to stop along edges of the graph, from
/// the first place to the last.
pub proof fn routes_lead_all_the_way(
    graph: WorldGraph,
    from: int,
    to: int,
    legs: Seq<int>,
) -> (stops: Seq<int>)
    requires
        router::cheapest(graph, from, to, legs),
    ensures
        passes_through(graph, stops, legs),
        stops[0] == from,
        stops.last() == to,
{
    lemma_stops(graph, from, legs)
}

/// No other way between the same two places has a lower fare than a route that
/// is found, as far as costs can be counted.
pub proof fn no_fare_is_lower(
    graph: WorldGraph,
    from: int,
    to: int,
    legs: Seq<int>,
    stops: Seq<int>,
    others: Seq<int>,
)
    requires
        router::cheapest(graph, from, to, legs),
        passes_through(graph, stops, others),
        stops[0] == from,
        stops.last() == to,
    ensures
        fare(graph, legs) <= fare(graph, others) || fare(graph, others) >= u32::MAX,
{
    lemma_connects(graph, stops, others);
    lemma_fare(graph, legs);
    lemma_fare(graph, others);
    assert(router::legs_connect(graph, from, others));
}

/// Two places are unconnected only where no way leads between them.
pub proof fn unconnected_places_have_no_way(
    graph: WorldGraph,
    from: int,
    to: int,
    stops: Seq<int>,
    legs: Seq<int>,
)
    requires
        !router::connected(graph, from, to),
        passes_through(graph, stops, legs),
        stops[0] == from,
    ensures
        stops.last() != to,
{
    lemma_connects(graph, stops, legs);
    assert(router::legs_connect(graph, from, legs));
}

/// A step reports where its leg goes and how.
pub proof fn steps_report_their_legs(graph: WorldGraph, legs: Seq<int>, i: int)
    requires
        0 <= i < legs.len(),
    ensures
        ({
            let steps = router::steps_of(graph, legs);
            let edge = graph.edges@[legs[i]];
            let place = graph.places@[edge.to as int];
            &&& steps.len() == legs.len()
            &&& steps[i].to_id == place.id
            &&& steps[i].to_mode == place.mode
            &&& steps[i].to_anchor == place.anchor
            &&& steps[i].edge == edge.edge
        }),
{
}

} // verus!
