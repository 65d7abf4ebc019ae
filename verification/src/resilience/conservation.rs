//! Why invalidation may look at footprints alone: a change that misses the
//! footprint of a transition leaves the transition, its safety and its price as
//! they were.
use vstd::prelude::*;

use crate::local::graph_model::{Hop, Problem};
use crate::local::moves::{Edge, Move, MoveContext};
use crate::local::rules::builtin::BuiltinMove;
use crate::local::tree;
use crate::local::world::Terrain;
use crate::planning;
use crate::pos::BlockPos;
use crate::resilience::dependency;
use crate::resilience::dependency::{ChunkChange, PathDependencyIndex};
use crate::resilience::footprint;
use crate::resilience::footprint::DependencyFootprint;
use crate::resilience::kept_moves;
use crate::resilience::locality;
use crate::types::PathNode;

verus! {

/// What the rules say about a transition is the same in both worlds.
proof fn lemma_same_description(
    movement: BuiltinMove,
    from: BlockPos,
    edge: Edge,
    a: Terrain,
    b: Terrain,
    ctx: &MoveContext,
)
    requires
        a.by_blocks(),
        b.by_blocks(),
        locality::untouched(from, edge, a, b, ctx),
    ensures
        movement.describes(from, edge, a, ctx) == movement.describes(from, edge, b, ctx),
{
    locality::lemma_ends(from, edge, a, b, ctx);
    locality::lemma_beside(from, edge, a, b, ctx, -1, -1);
    locality::lemma_beside(from, edge, a, b, ctx, -1, 0);
    locality::lemma_beside(from, edge, a, b, ctx, -1, 1);
    locality::lemma_beside(from, edge, a, b, ctx, 0, -1);
    locality::lemma_beside(from, edge, a, b, ctx, 0, 1);
    locality::lemma_beside(from, edge, a, b, ctx, 1, -1);
    locality::lemma_beside(from, edge, a, b, ctx, 1, 0);
    locality::lemma_beside(from, edge, a, b, ctx, 1, 1);
    assert(planning::crowded_count(a, edge.to) == planning::crowded_count(b, edge.to));
    assert(planning::beside_partial(a, edge.to) == planning::beside_partial(b, edge.to));
}

/// The same problem in a world where some blocks have changed.
pub open spec fn in_world(problem: Problem<BuiltinMove>, changed: Terrain) -> Problem<BuiltinMove> {
    Problem { terrain: changed, ..problem }
}

/// Invalidation is conservative: a change that misses the footprint of a
/// transition leaves it legal, with the same destination and at the same price.
pub proof fn untouched_hops_survive(
    problem: Problem<BuiltinMove>,
    changed: Terrain,
    from: BlockPos,
    hop: Hop,
) -> (again: Hop)
    requires
        problem.terrain.by_blocks(),
        changed.by_blocks(),
        locality::inland(from),
        problem.legal(from, hop),
        locality::untouched(from, problem.edge(from, hop), problem.terrain, changed, &problem.ctx),
    ensures
        in_world(problem, changed).legal(from, again),
        in_world(problem, changed).edge(from, again) == problem.edge(from, hop),
        in_world(problem, changed).price(from, again) == problem.price(from, hop),
{
    let after = in_world(problem, changed);
    let movement = problem.moves[hop.rule];
    let edge = problem.edge(from, hop);
    kept_moves::lemma_rules_keep(movement, from, problem.terrain, changed, &problem.ctx);
    assert(problem.menu(from, hop.rule)[hop.choice] == edge);
    let menu = after.menu(from, hop.rule);
    assert(menu.contains(edge));
    let choice = choose|choice: int| 0 <= choice < menu.len() && menu[choice] == edge;
    locality::lemma_same_tolls(from, edge, problem.terrain, changed, &problem.ctx);
    lemma_same_description(movement, from, edge, problem.terrain, changed, &problem.ctx);
    Hop { rule: hop.rule, choice }
}

/// Whether no change touches the footprint of any transition of a route.
pub open spec fn route_untouched(
    problem: Problem<BuiltinMove>,
    changed: Terrain,
    start: BlockPos,
    hops: Seq<Hop>,
) -> bool
    decreases hops.len(),
{
    hops.len() == 0 || {
        let from = problem.end(start, hops.drop_last());
        &&& route_untouched(problem, changed, start, hops.drop_last())
        &&& locality::inland(from)
        &&& locality::untouched(
            from,
            problem.edge(from, hops.last()),
            problem.terrain,
            changed,
            &problem.ctx,
        )
    }
}

/// A route whose footprints no change touches is still a route, to the same
/// place and at the same cost.
pub proof fn untouched_routes_survive(
    problem: Problem<BuiltinMove>,
    changed: Terrain,
    start: BlockPos,
    hops: Seq<Hop>,
) -> (again: Seq<Hop>)
    requires
        problem.terrain.by_blocks(),
        changed.by_blocks(),
        problem.walkable(start, hops),
        route_untouched(problem, changed, start, hops),
    ensures
        again.len() == hops.len(),
        in_world(problem, changed).walkable(start, again),
        in_world(problem, changed).end(start, again) == problem.end(start, hops),
        in_world(problem, changed).length(start, again) == problem.length(start, hops),
    decreases hops.len(),
{
    if hops.len() == 0 {
        hops
    } else {
        let shorter = untouched_routes_survive(problem, changed, start, hops.drop_last());
        let from = problem.end(start, hops.drop_last());
        let last = untouched_hops_survive(problem, changed, from, hops.last());
        in_world(problem, changed).lemma_push(start, shorter, last);
        shorter.push(last)
    }
}

/// A footprint that is not broad is enough to watch: worlds that agree on its
/// blocks agree on everything the transition depends on.
pub proof fn narrow_footprints_are_enough(
    narrow: DependencyFootprint,
    from: BlockPos,
    edge: Edge,
    a: Terrain,
    b: Terrain,
    ctx: &MoveContext,
)
    requires
        footprint::traceable(from, edge.to, edge.kind),
        footprint::fits(
            footprint::dependencies(
                from,
                edge.to,
                edge.kind,
                footprint::options_of(ctx).in_range(),
            ),
            footprint::options_of(ctx).in_range().max_blocks_per_edge,
        ),
        footprint::bounded(
            narrow,
            footprint::dependencies(
                from,
                edge.to,
                edge.kind,
                footprint::options_of(ctx).in_range(),
            ),
            footprint::options_of(ctx).in_range().max_blocks_per_edge,
        ),
        locality::agree(a, b, narrow.covers()),
    ensures
        locality::untouched(from, edge, a, b, ctx),
{
    reveal(locality::untouched);
}

/// Whether a batch of changes names every block in which two worlds differ,
/// singly or by its chunk.
pub open spec fn names_changes(
    a: Terrain,
    b: Terrain,
    blocks: Seq<BlockPos>,
    chunks: Seq<ChunkChange>,
) -> bool {
    forall|cell: BlockPos|
        a.kind(cell) != #[trigger] b.kind(cell) ==> blocks.contains(cell) || exists|i: int|
            0 <= i < chunks.len() && (#[trigger] chunks[i]).column == dependency::chunk_of(cell)
}

/// The part of a route that comes before the earliest affected edge; all of it
/// when no edge is affected.
pub open spec fn unaffected(hops: Seq<Hop>, earliest: Option<usize>) -> Seq<Hop> {
    match earliest {
        Some(edge) if edge < hops.len() => hops.take(edge as int),
        _ => hops,
    }
}

/// What comes before the earliest affected edge of a route is untouched, so it
/// is still a route at the same cost.
pub proof fn unaffected_routes_survive(
    problem: Problem<BuiltinMove>,
    changed: Terrain,
    start: BlockPos,
    path: Seq<PathNode>,
    hops: Seq<Hop>,
    index: PathDependencyIndex,
    blocks: Seq<BlockPos>,
    chunks: Seq<ChunkChange>,
    earliest: Option<usize>,
)
    requires
        tree::realizes(problem, start, path, hops),
        forall|i: int| 0 <= i < path.len() ==> locality::inland((#[trigger] path[i]).pos),
        index.wf(),
        index.covers(
            dependency::builtin_needs(path, footprint::options_of(&problem.ctx)),
            dependency::edge_total(path),
        ),
        names_changes(problem.terrain, changed, blocks, chunks),
        dependency::earliest_touched(index, blocks, chunks, earliest),
    ensures
        route_untouched(problem, changed, start, unaffected(hops, earliest)),
{
    let whole = unaffected(hops, earliest);
    lemma_unaffected_so_far(
        problem,
        changed,
        start,
        path,
        hops,
        index,
        blocks,
        chunks,
        earliest,
        whole.len() as int,
    );
    assert(whole =~= hops.take(whole.len() as int));
}

proof fn lemma_unaffected_so_far(
    problem: Problem<BuiltinMove>,
    changed: Terrain,
    start: BlockPos,
    path: Seq<PathNode>,
    hops: Seq<Hop>,
    index: PathDependencyIndex,
    blocks: Seq<BlockPos>,
    chunks: Seq<ChunkChange>,
    earliest: Option<usize>,
    n: int,
)
    requires
        tree::realizes(problem, start, path, hops),
        forall|i: int| 0 <= i < path.len() ==> locality::inland((#[trigger] path[i]).pos),
        index.wf(),
        index.covers(
            dependency::builtin_needs(path, footprint::options_of(&problem.ctx)),
            dependency::edge_total(path),
        ),
        names_changes(problem.terrain, changed, blocks, chunks),
        dependency::earliest_touched(index, blocks, chunks, earliest),
        0 <= n <= unaffected(hops, earliest).len(),
    ensures
        route_untouched(problem, changed, start, hops.take(n)),
    decreases n,
{
    if n > 0 {
        let e = n - 1;
        lemma_unaffected_so_far(
            problem,
            changed,
            start,
            path,
            hops,
            index,
            blocks,
            chunks,
            earliest,
            e,
        );
        assert(hops.take(n).drop_last() =~= hops.take(e));
        assert(tree::realizes_step(problem, start, path, hops, n));
        if e > 0 {
            assert(tree::realizes_step(problem, start, path, hops, e));
        } else {
            assert(hops.take(0) =~= Seq::<Hop>::empty());
        }
        let from = problem.end(start, hops.take(e));
        assert(from == path[e].pos);
        let edge = problem.edge(from, hops[e]);
        let options = footprint::options_of(&problem.ctx);
        let needs = dependency::builtin_needs(path, options);
        assert(needs[e] == dependency::edge_need(path[e], path[e + 1], options));
        reveal(locality::untouched);
        let cells = footprint::dependencies(from, edge.to, edge.kind, options.in_range());
        assert forall|cell: BlockPos| #[trigger]
            cells.contains(cell) implies problem.terrain.kind(cell) == changed.kind(cell) by {
            if problem.terrain.kind(cell) != changed.kind(cell) {
                if blocks.contains(cell) {
                    let i = choose|i: int| 0 <= i < blocks.len() && blocks[i] == cell;
                    dependency::needed_changes_are_reported(
                        index,
                        needs,
                        blocks,
                        chunks,
                        earliest,
                        e,
                        i,
                    );
                } else {
                    let i = choose|i: int|
                        0 <= i < chunks.len() && (#[trigger] chunks[i]).column
                            == dependency::chunk_of(cell);
                    dependency::needed_chunks_are_reported(
                        index,
                        needs,
                        blocks,
                        chunks,
                        earliest,
                        e,
                        cell,
                        i,
                    );
                }
            }
        }
    }
}

} // verus!
