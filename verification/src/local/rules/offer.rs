//! Sequences of offered transitions.
use vstd::prelude::*;

use crate::local::moves::Edge;

verus! {

/// One transition when `condition` holds, otherwise none.
pub open spec fn offer(condition: bool, edge: Edge) -> Seq<Edge> {
    if condition {
        seq![edge]
    } else {
        Seq::empty()
    }
}

/// Four groups of transitions, in order.
pub open spec fn in_turn(a: Seq<Edge>, b: Seq<Edge>, c: Seq<Edge>, d: Seq<Edge>) -> Seq<Edge> {
    a + b + c + d
}

pub proof fn lemma_in_turn(
    before: Seq<Edge>,
    a: Seq<Edge>,
    b: Seq<Edge>,
    c: Seq<Edge>,
    d: Seq<Edge>,
)
    ensures
        before + a + b + c + d == before + in_turn(a, b, c, d),
{
    assert(before + a + b + c + d =~= before + in_turn(a, b, c, d));
}

pub proof fn lemma_two_in_turn(before: Seq<Edge>, a: Seq<Edge>, b: Seq<Edge>)
    ensures
        before + a + b == before + (a + b),
{
    assert(before + a + b =~= before + (a + b));
}

/// What holds of every transition of four groups holds of each group.
pub open spec fn all_edges(edges: Seq<Edge>, holds: spec_fn(Edge) -> bool) -> bool {
    forall|i: int| 0 <= i < edges.len() ==> holds(#[trigger] edges[i])
}

pub broadcast proof fn lemma_all_edges_add(
    a: Seq<Edge>,
    b: Seq<Edge>,
    holds: spec_fn(Edge) -> bool,
)
    requires
        all_edges(a, holds),
        all_edges(b, holds),
    ensures
        #[trigger] all_edges(a + b, holds),
{
    assert forall|i: int| 0 <= i < (a + b).len() implies holds(#[trigger] (a + b)[i]) by {
        if i < a.len() {
            assert((a + b)[i] == a[i]);
        } else {
            assert((a + b)[i] == b[i - a.len()]);
        }
    }
}

/// A transition is in two groups together if it is in either.
pub broadcast proof fn lemma_contains_add(a: Seq<Edge>, b: Seq<Edge>, edge: Edge)
    ensures
        #[trigger] (a + b).contains(edge) <==> a.contains(edge) || b.contains(edge),
{
    if a.contains(edge) {
        let i = choose|i: int| 0 <= i < a.len() && a[i] == edge;
        assert((a + b)[i] == edge);
    }
    if b.contains(edge) {
        let i = choose|i: int| 0 <= i < b.len() && b[i] == edge;
        assert((a + b)[a.len() + i] == edge);
    }
    if (a + b).contains(edge) {
        let i = choose|i: int| 0 <= i < (a + b).len() && (a + b)[i] == edge;
        if i < a.len() {
            assert(a[i] == edge);
        } else {
            assert(b[i - a.len()] == edge);
        }
    }
}

/// A transition is offered if it is the one on offer and its condition holds.
pub broadcast proof fn lemma_contains_offer(condition: bool, offered: Edge, edge: Edge)
    ensures
        #[trigger] offer(condition, offered).contains(edge) <==> condition && edge == offered,
{
    if condition {
        assert(offer(condition, offered)[0] == offered);
    }
}

/// Nothing is on offer where nothing is offered.
pub broadcast proof fn lemma_contains_nothing(edge: Edge)
    ensures
        !(#[trigger] Seq::<Edge>::empty().contains(edge)),
{
}

} // verus!
