//! Which changes of the world a route has to answer.
use vstd::prelude::*;

use crate::arith;
use crate::local::world;
use crate::pos::BlockPos;
use crate::resilience::cells;
use crate::resilience::dependency;
use crate::resilience::dependency::{
    ChunkChange, InvalidationError, PathDependencyIndex, WorldChangeBatch,
};
use crate::resilience::footprint;
use crate::resilience::footprint::{DependencyFootprint, DependencyOptions};
use crate::types::{MoveKind, PathNode};

verus! {

/// Whether some edge of a route depends on a block.
pub open spec fn depended_on(needs: Seq<Option<Set<BlockPos>>>, at: BlockPos) -> bool {
    exists|e: int|
        0 <= e < needs.len() && (#[trigger] needs[e]) is Some && needs[e]->0.contains(at)
}

/// Blocks share a chunk exactly where they share sixteen by sixteen columns.
pub proof fn chunks_are_sixteen_wide(at: BlockPos)
    ensures
        ({
            let chunk = dependency::chunk_of(at);
            &&& 16 * chunk.x <= at.x <= 16 * chunk.x + 15
            &&& 16 * chunk.z <= at.z <= 16 * chunk.z + 15
        }),
{
}

/// A route ignores changes that none of its edges depends on: where every edge
/// is known exactly and no changed block or chunk matters to any, nothing is
/// affected.
pub proof fn unrelated_changes_are_ignored(
    index: PathDependencyIndex,
    needs: Seq<Option<Set<BlockPos>>>,
    blocks: Seq<BlockPos>,
    chunks: Seq<ChunkChange>,
    earliest: Option<usize>,
)
    requires
        index.covers(needs, needs.len() as int),
        index.chunked(),
        index.broad_edge() is None,
        dependency::earliest_touched(index, blocks, chunks, earliest),
        forall|i: int| 0 <= i < blocks.len() ==> !depended_on(needs, #[trigger] blocks[i]),
        forall|i: int, at: BlockPos|
            0 <= i < chunks.len() && #[trigger] depended_on(needs, at)
                ==> dependency::chunk_of(at) != (#[trigger] chunks[i]).column,
    ensures
        earliest is None,
{
    if let Some(edge) = earliest {
        assert(dependency::touches(index, blocks, chunks, edge));
        if exists|i: int|
            0 <= i < blocks.len() && index.by_block().contains_key(#[trigger] blocks[i])
                && index.by_block()[blocks[i]] == edge {
            let i = choose|i: int|
                0 <= i < blocks.len() && index.by_block().contains_key(#[trigger] blocks[i])
                    && index.by_block()[blocks[i]] == edge;
            lemma_recorded(index, needs, blocks[i]);
        } else {
            let i = choose|i: int|
                0 <= i < chunks.len() && index.by_chunk().contains_key(
                    (#[trigger] chunks[i]).column,
                ) && index.by_chunk()[chunks[i].column] == edge;
            let column = chunks[i].column;
            assert(index.by_chunk().contains_key(column));
            let at = choose|at: BlockPos| #[trigger]
                index.by_block().contains_key(at) && dependency::chunk_of(at) == column
                    && index.by_block()[at] == index.by_chunk()[column];
            assert(index.by_block().contains_key(at));
            lemma_recorded(index, needs, at);
        }
    }
}

proof fn lemma_recorded(
    index: PathDependencyIndex,
    needs: Seq<Option<Set<BlockPos>>>,
    at: BlockPos,
)
    requires
        index.covers(needs, needs.len() as int),
        index.broad_edge() is None,
        index.by_block().contains_key(at),
    ensures
        depended_on(needs, at),
{
    assert(dependency::needed_before(needs, needs.len() as int).contains(at));
    let e = choose|e: int|
        0 <= e < needs.len() && (#[trigger] needs[e]) is Some && needs[e]->0.contains(at);
    assert(needs[e] is Some);
}

/// A changed block is answered at the very edge that first depends on it,
/// unless something else is affected earlier.
pub proof fn changes_are_answered_where_they_matter(
    index: PathDependencyIndex,
    needs: Seq<Option<Set<BlockPos>>>,
    at: BlockPos,
    earliest: Option<usize>,
    edge: int,
)
    requires
        index.covers(needs, needs.len() as int),
        index.broad_edge() is None,
        dependency::earliest_touched(index, seq![at], Seq::empty(), earliest),
        0 <= edge < needs.len(),
        needs[edge] matches Some(cells) && cells.contains(at),
        forall|e: int|
            0 <= e < edge ==> ((#[trigger] needs[e]) matches Some(cells) ==> !cells.contains(at)),
    ensures
        earliest == Some(edge as usize),
{
    let blocks = seq![at];
    assert(needs[edge] is Some);
    assert(dependency::needed_before(needs, needs.len() as int).contains(at));
    let recorded = index.by_block()[at];
    assert(dependency::first_need(needs, at, recorded as int));
    if recorded < edge {
        assert(needs[recorded as int] is Some);
    }
    assert(recorded == edge);
    assert(blocks[0] == at);
    assert(dependency::touches(index, blocks, Seq::empty(), recorded));
    if let Some(first) = earliest {
        assert(dependency::touches(index, blocks, Seq::empty(), first));
        let i = choose|i: int|
            0 <= i < blocks.len() && index.by_block().contains_key(#[trigger] blocks[i])
                && index.by_block()[blocks[i]] == first;
        assert(blocks[i] == at);
    }
}

/// A batch of changes is answered only for the very place, path and revision
/// that the index was made for. Another cost model, and obstacles that moved or
/// expired, affect the whole route; so does a change that nothing is said about.
/// Without a change, and for a route without a step, nothing is affected.
pub proof fn batches_are_held_to_their_basis(
    index: PathDependencyIndex,
    batch: WorldChangeBatch,
    answer: Result<Option<usize>, InvalidationError>,
)
    requires
        dependency::affected(index, batch, answer),
    ensures
        ({
            let basis = index.basis();
            let fits = batch.scope.same(index.home()) && batch.path_revision == basis.path
                && batch.from_world_revision == basis.world_basis && batch.to_world_revision
                >= batch.from_world_revision;
            let stale = batch.current_cost_model != basis.cost_model
                || batch.current_dynamic_obstacles != basis.dynamic_obstacles || (
            basis.dynamic_obstacles.valid_until_tick matches Some(until) && batch.now_tick
                >= until);
            let named = batch.changed_blocks@.len() > 0 || batch.changed_chunks@.len() > 0;
            let still = batch.to_world_revision == batch.from_world_revision;
            &&& !fits ==> answer is Err
            &&& fits && index.edges() == 0 ==> answer == Ok::<Option<usize>, InvalidationError>(
                None,
            )
            &&& fits && index.edges() > 0 && stale ==> answer == Ok::<
                Option<usize>,
                InvalidationError,
            >(Some(0))
            &&& fits && index.edges() > 0 && !stale && still && !named ==> answer == Ok::<
                Option<usize>,
                InvalidationError,
            >(None)
            &&& fits && index.edges() > 0 && !stale && still && named ==> answer is Err
            &&& fits && index.edges() > 0 && !stale && !still && !named ==> answer == Ok::<
                Option<usize>,
                InvalidationError,
            >(Some(0))
            &&& fits && index.edges() > 0 && !stale && !still && named ==> answer is Ok
        }),
{
}

/// A footprint that someone hands in for an edge counts exactly where it is the
/// only one for that edge, is for the very blocks the edge joins, names at least
/// one block, and is not one that any change touches. Then the edge depends on
/// the blocks it names; otherwise on everything.
pub proof fn supplied_footprints_must_fit(
    nodes: Seq<PathNode>,
    footprints: Seq<DependencyFootprint>,
    edge: int,
    i: int,
)
    requires
        0 <= edge < nodes.len() - 1,
        0 <= i < footprints.len(),
        footprints[i].edge_index == edge,
    ensures
        ({
            let need = dependency::supplied_needs(nodes, footprints)[edge];
            let alone = forall|j: int|
                0 <= j < footprints.len() && (#[trigger] footprints[j]).edge_index == edge ==> j
                    == i;
            let right = footprints[i].from == nodes[edge].pos && footprints[i].to
                == nodes[edge + 1].pos;
            let plain = !footprints[i].invalidate_on_any_change && footprints[i].listed().len() > 0;
            &&& alone && right && plain ==> need == Some(footprints[i].covers())
            &&& !(alone && right && plain) ==> need is None
        }),
{
    let alone = forall|j: int|
        0 <= j < footprints.len() && (#[trigger] footprints[j]).edge_index == edge ==> j == i;
    if dependency::supplies(nodes, footprints, edge, i) {
        assert(alone);
    }
    if exists|k: int| #[trigger] dependency::supplies(nodes, footprints, edge, k) {
        let k = choose|k: int| #[trigger] dependency::supplies(nodes, footprints, edge, k);
        assert(dependency::sole(footprints, edge, k));
        assert(k == i);
    }
    if alone {
        assert forall|j: int| 0 <= j < footprints.len() && j != i implies (
        #[trigger] footprints[j]).edge_index != edge by {
        }
    }
}

/// An edge that nobody handed in a footprint for depends on everything.
pub proof fn unsupplied_edges_depend_on_everything(
    nodes: Seq<PathNode>,
    footprints: Seq<DependencyFootprint>,
    edge: int,
)
    requires
        0 <= edge < nodes.len() - 1,
        forall|j: int|
            0 <= j < footprints.len() ==> (#[trigger] footprints[j]).edge_index != edge,
    ensures
        dependency::supplied_needs(nodes, footprints)[edge] is None,
{
    if exists|k: int| #[trigger] dependency::supplies(nodes, footprints, edge, k) {
        let k = choose|k: int| #[trigger] dependency::supplies(nodes, footprints, edge, k);
        assert(footprints[k].edge_index == edge);
    }
}

/// Only ordinary transitions have a footprint of their own. Starts and
/// teleports have none. A walk, jump, fall, climb or stroke leads at most into a
/// neighbouring column, only a level walk leads diagonally, a jump leads one up
/// and a fall down; and a leap leads two to four blocks.
pub proof fn strange_transitions_depend_on_everything(
    from: BlockPos,
    to: BlockPos,
    kind: MoveKind,
)
    requires
        footprint::traceable(from, to, kind),
    ensures
        from != to,
        !(kind is Start) && !(kind is Aotv) && !(kind is Etherwarp),
        !(kind is Parkour) ==> -1 <= to.x - from.x <= 1 && -1 <= to.z - from.z <= 1,
        !(kind is Parkour) && from.x != to.x && from.z != to.z ==> kind is Walk && to.y == from.y,
        kind is Walk || kind is Swim ==> -1 <= to.y - from.y <= 1,
        kind is Jump ==> to.y == from.y + 1,
        kind is Fall ==> to.y < from.y,
        kind is Climb ==> -1 <= to.y - from.y <= 1,
        kind is Climb && to.y < from.y ==> from.x == to.x && from.z == to.z,
        kind is Walk || kind is Jump || kind is Fall ==> from.x != to.x || from.z != to.z,
        kind matches MoveKind::Parkour { rise, .. } ==> {
            let squared = (to.x - from.x) * (to.x - from.x) + (to.z - from.z) * (to.z - from.z);
            4 <= squared <= 16 && rise == to.y - from.y
        },
{
    if kind is Parkour {
        let (dx, dz) = (to.x - from.x, to.z - from.z);
        let (ax, az) = (arith::abs_int(dx), arith::abs_int(dz));
        assert(ax * ax == dx * dx) by (nonlinear_arith)
            requires
                ax == dx || ax == -dx,
        ;
        assert(az * az == dz * dz) by (nonlinear_arith)
            requires
                az == dz || az == -dz,
        ;
        if from == to {
            assert(dx == 0 && dz == 0);
            assert(dx * dx == 0 && dz * dz == 0) by (nonlinear_arith)
                requires
                    dx == 0,
                    dz == 0,
            ;
        }
    }
}

/// Whether a cell lies within a reach of the columns between two blocks, and
/// from so far below the lower to so far above the higher of them.
pub open spec fn around(
    from: BlockPos,
    to: BlockPos,
    reach: int,
    below: int,
    above: int,
    cell: BlockPos,
) -> bool {
    &&& arith::min_int(from.x as int, to.x as int) - reach <= cell.x <= arith::max_int(
        from.x as int,
        to.x as int,
    ) + reach
    &&& arith::min_int(from.z as int, to.z as int) - reach <= cell.z <= arith::max_int(
        from.z as int,
        to.z as int,
    ) + reach
    &&& arith::min_int(from.y as int, to.y as int) - below <= cell.y <= arith::max_int(
        from.y as int,
        to.y as int,
    ) + above
}

proof fn lemma_part(d: int, step: int, steps: int)
    requires
        0 <= step <= steps,
        steps > 0,
    ensures
        d >= 0 ==> 0 <= footprint::toward_zero(d * step, steps) <= d,
        d <= 0 ==> d <= footprint::toward_zero(d * step, steps) <= 0,
{
    if d >= 0 {
        assert(0 <= d * step <= d * steps) by (nonlinear_arith)
            requires
                0 <= step <= steps,
                d >= 0,
        ;
        assert(0 <= (d * step) / steps <= d) by (nonlinear_arith)
            requires
                0 <= d * step <= d * steps,
                steps > 0,
        ;
    }
    if d <= 0 {
        let e = -d;
        assert(-(d * step) == e * step) by (nonlinear_arith)
            requires
                e == -d,
        ;
        assert(0 <= e * step <= e * steps) by (nonlinear_arith)
            requires
                0 <= step <= steps,
                e >= 0,
        ;
        assert(0 <= (e * step) / steps <= e) by (nonlinear_arith)
            requires
                0 <= e * step <= e * steps,
                steps > 0,
        ;
    }
}

proof fn lemma_line_between(from: BlockPos, to: BlockPos, k: int)
    requires
        0 <= k < footprint::transition_line(from, to).len(),
    ensures
        around(from, to, 0, 0, 0, footprint::transition_line(from, to)[k]),
{
    let steps = footprint::axis_span(from, to);
    if steps > 0 {
        lemma_part(to.x - from.x, k, steps);
        lemma_part(to.y - from.y, k, steps);
        lemma_part(to.z - from.z, k, steps);
        assert(footprint::transition_line(from, to)[k] == footprint::on_line(from, to, k, steps));
    }
}

/// A footprint watches no farther than it must: sideways as far as lava or
/// collisions are looked for, or the two blocks of a run-up, and one block below
/// and two above the body's way, or what a jump needs.
pub proof fn footprints_stay_near(
    from: BlockPos,
    to: BlockPos,
    kind: MoveKind,
    options: DependencyOptions,
    cell: BlockPos,
)
    requires
        footprint::traceable(from, to, kind),
        footprint::dependencies(from, to, kind, options).contains(cell),
        0 <= options.hazard_radius <= 32,
        0 <= options.local_neighborhood_radius <= 2,
    ensures
        ({
            let near = arith::max_int(
                arith::max_int(
                    options.hazard_radius as int,
                    options.local_neighborhood_radius as int,
                ),
                1,
            );
            let reach = if kind is Parkour {
                arith::max_int(near, 2)
            } else {
                near
            };
            let below: int = if kind is Parkour {
                2
            } else {
                1
            };
            let above: int = if kind is Parkour || kind is Jump {
                4
            } else {
                2
            };
            around(from, to, reach, below, above, cell)
        }),
{
    let line = footprint::transition_line(from, to);
    let local = options.local_neighborhood_radius as int;
    let hazard = options.hazard_radius as int;
    assert forall|k: int| 0 <= k < line.len() implies around(
        from,
        to,
        0,
        0,
        0,
        #[trigger] line[k],
    ) by {
        lemma_line_between(from, to, k);
    }
    if footprint::corridor_cells(from, to, local).contains(cell) {
        lemma_corridor(from, to, local, line, cell);
    } else if footprint::hazard_cells(from, to, hazard).contains(cell) {
        lemma_hazard(from, to, hazard, line, cell);
    } else {
        lemma_kind(from, to, kind, line, cell);
    }
}

proof fn lemma_near(from: BlockPos, to: BlockPos, radius: int, at: BlockPos, cell: BlockPos)
    requires
        around(from, to, 0, 0, 0, at),
        cells::near_cells(at, radius).contains(cell),
        0 <= radius <= 32,
    ensures
        around(from, to, radius, 1, 2, cell),
{
    let (dx, dz) = choose|dx: int, dz: int|
        -radius <= dx <= radius && -radius <= dz <= radius && cells::body_cells(
            #[trigger] world::shift(at, dx, 0, dz),
        ).contains(cell);
    let column = world::shift(at, dx, 0, dz);
    assert(around(from, to, radius, 0, 0, column));
}

proof fn lemma_corridor(
    from: BlockPos,
    to: BlockPos,
    radius: int,
    line: Seq<BlockPos>,
    cell: BlockPos,
)
    requires
        line == footprint::transition_line(from, to),
        forall|k: int| 0 <= k < line.len() ==> around(from, to, 0, 0, 0, #[trigger] line[k]),
        footprint::corridor_cells(from, to, radius).contains(cell),
        0 <= radius <= 32,
    ensures
        around(from, to, radius, 1, 2, cell),
{
    let bodies = |at: BlockPos| cells::body_cells(at).union(cells::near_cells(at, radius));
    if cells::swept(line, bodies).contains(cell) {
        let k = choose|k: int| 0 <= k < line.len() && bodies(#[trigger] line[k]).contains(cell);
        if cells::near_cells(line[k], radius).contains(cell) {
            lemma_near(from, to, radius, line[k], cell);
        } else {
            assert(cells::body_cells(line[k]).contains(cell));
        }
    }
}

proof fn lemma_hazard(
    from: BlockPos,
    to: BlockPos,
    radius: int,
    line: Seq<BlockPos>,
    cell: BlockPos,
)
    requires
        line == footprint::transition_line(from, to),
        forall|k: int| 0 <= k < line.len() ==> around(from, to, 0, 0, 0, #[trigger] line[k]),
        footprint::hazard_cells(from, to, radius).contains(cell),
        0 <= radius <= 32,
    ensures
        around(from, to, arith::max_int(radius, 1), 1, 2, cell),
{
    let lava = |at: BlockPos| cells::near_cells(at, radius);
    if cells::near_cells(to, 1).contains(cell) {
        lemma_near(from, to, 1, to, cell);
    } else {
        assert(cells::swept(line, lava).contains(cell));
        let k = choose|k: int| 0 <= k < line.len() && lava(#[trigger] line[k]).contains(cell);
        lemma_near(from, to, radius, line[k], cell);
    }
}

proof fn lemma_kind(
    from: BlockPos,
    to: BlockPos,
    kind: MoveKind,
    line: Seq<BlockPos>,
    cell: BlockPos,
)
    requires
        line == footprint::transition_line(from, to),
        forall|k: int| 0 <= k < line.len() ==> around(from, to, 0, 0, 0, #[trigger] line[k]),
        footprint::kind_cells(from, to, kind).contains(cell),
    ensures
        !(kind is Parkour) && !(kind is Jump) ==> around(from, to, 1, 1, 2, cell),
        kind is Jump ==> around(from, to, 1, 1, 4, cell),
        kind is Parkour ==> around(from, to, 2, 2, 4, cell),
{
    if kind is Climb {
        let attached = |at: BlockPos| footprint::attached_cells(at);
        assert(cells::swept(line, attached).contains(cell));
        let k = choose|k: int| 0 <= k < line.len() && attached(#[trigger] line[k]).contains(cell);
        lemma_attached(from, to, line[k], cell);
    } else if kind is Swim {
        let stroke = |at: BlockPos| cells::near_cells(at, 1);
        assert(cells::swept(line, stroke).contains(cell));
        let k = choose|k: int| 0 <= k < line.len() && stroke(#[trigger] line[k]).contains(cell);
        lemma_near(from, to, 1, line[k], cell);
    } else if kind is Fall {
        assert(footprint::descent_cells(from, to).contains(cell));
        lemma_descent(from, to, cell);
    } else if kind is Jump || kind is Parkour {
        let raised = |at: BlockPos| footprint::raised_cells(at);
        if cells::swept(line, raised).contains(cell) {
            let k = choose|k: int| 0 <= k < line.len() && raised(#[trigger] line[k]).contains(cell);
            lemma_raised(from, to, line[k], cell);
        } else {
            assert(kind is Parkour);
            lemma_run_up(from, to, 1, cell);
            lemma_run_up(from, to, 2, cell);
        }
    }
}

proof fn lemma_attached(from: BlockPos, to: BlockPos, at: BlockPos, cell: BlockPos)
    requires
        around(from, to, 0, 0, 0, at),
        footprint::attached_cells(at).contains(cell),
    ensures
        around(from, to, 1, 1, 2, cell),
{
}

proof fn lemma_raised(from: BlockPos, to: BlockPos, at: BlockPos, cell: BlockPos)
    requires
        around(from, to, 0, 0, 0, at),
        footprint::raised_cells(at).contains(cell),
    ensures
        around(from, to, 0, 1, 4, cell),
{
}

proof fn lemma_descent(from: BlockPos, to: BlockPos, cell: BlockPos)
    requires
        footprint::descent_cells(from, to).contains(cell),
    ensures
        around(from, to, 0, 1, 2, cell),
{
    let y = choose|y: i32|
        arith::min_int(from.y as int, to.y as int) <= y <= arith::max_int(
            from.y as int,
            to.y as int,
        ) && cells::body_cells(#[trigger] footprint::column(to, y)).contains(cell);
    assert(around(from, to, 0, 0, 0, footprint::column(to, y)));
}

proof fn lemma_run_up(from: BlockPos, to: BlockPos, back: int, cell: BlockPos)
    requires
        1 <= back <= 2,
    ensures
        footprint::run_up_cells(from, to, back).contains(cell) ==> around(
            from,
            to,
            2,
            2,
            4,
            cell,
        ),
{
    let sx = footprint::sign(to.x - from.x);
    let sz = footprint::sign(to.z - from.z);
    assert(-sx * back == -back || -sx * back == 0 || -sx * back == back) by (nonlinear_arith)
        requires
            sx == 1 || sx == 0 || sx == -1,
    ;
    assert(-sz * back == -back || -sz * back == 0 || -sz * back == back) by (nonlinear_arith)
        requires
            sz == 1 || sz == 0 || sz == -1,
    ;
}

} // verus!
