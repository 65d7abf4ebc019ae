//! What a footprint covers, and what worlds that agree on it have in common.
use vstd::prelude::*;

use crate::local::moves;
use crate::local::moves::{Edge, MoveContext};
use crate::local::rules::offer;
use crate::local::tolls;
use crate::local::world;
use crate::local::world::Terrain;
use crate::pos::BlockPos;
use crate::resilience::cells;
use crate::resilience::footprint;

verus! {

/// Whether two worlds hold the same blocks in `cells`.
pub open spec fn agree(a: Terrain, b: Terrain, cells: Set<BlockPos>) -> bool {
    forall|cell: BlockPos| #[trigger] cells.contains(cell) ==> a.kind(cell) == b.kind(cell)
}

/// Whether two worlds hold the same blocks wherever a transition depends on
/// them.
#[verifier::opaque]
pub open spec fn untouched(
    from: BlockPos,
    edge: Edge,
    a: Terrain,
    b: Terrain,
    ctx: &MoveContext,
) -> bool {
    agree(
        a,
        b,
        footprint::dependencies(
            from,
            edge.to,
            edge.kind,
            footprint::options_of(ctx).in_range(),
        ),
    )
}

/// Whether `pos` lies so far inside the coordinate range that no transition
/// reaches its end.
pub open spec fn inland(pos: BlockPos) -> bool {
    &&& -2_000_000_000 <= pos.x <= 2_000_000_000
    &&& -2_000_000_000 <= pos.y <= 2_000_000_000
    &&& -2_000_000_000 <= pos.z <= 2_000_000_000
}

/// Whether two worlds hold the same blocks around a body at `at`, and agree
/// that it stands.
pub open spec fn same_body(a: Terrain, b: Terrain, at: BlockPos) -> bool {
    &&& a.kind(at) == b.kind(at)
    &&& a.kind(world::shift(at, 0, -1, 0)) == b.kind(world::shift(at, 0, -1, 0))
    &&& a.kind(world::shift(at, 0, 1, 0)) == b.kind(world::shift(at, 0, 1, 0))
    &&& a.kind(world::shift(at, 0, 2, 0)) == b.kind(world::shift(at, 0, 2, 0))
    &&& a.stands(at) == b.stands(at)
}

pub(crate) proof fn lemma_same_body(a: Terrain, b: Terrain, at: BlockPos)
    requires
        a.by_blocks(),
        b.by_blocks(),
        agree(a, b, cells::body_cells(at)),
    ensures
        same_body(a, b, at),
{
    let body = cells::body_cells(at);
    assert(body.contains(at));
    assert(body.contains(world::shift(at, 0, -1, 0)));
    assert(body.contains(world::shift(at, 0, 1, 0)));
    assert(body.contains(world::shift(at, 0, 2, 0)));
    assert(a.stands(at) == world::stands_by_blocks(a.kinds, at));
    assert(b.stands(at) == world::stands_by_blocks(b.kinds, at));
}

/// The bodies at both ends of a transition are part of its footprint.
pub(crate) proof fn lemma_ends(from: BlockPos, edge: Edge, a: Terrain, b: Terrain, ctx: &MoveContext)
    requires
        a.by_blocks(),
        b.by_blocks(),
        untouched(from, edge, a, b, ctx),
    ensures
        same_body(a, b, from),
        same_body(a, b, edge.to),
{
    reveal(untouched);
    let needs = footprint::dependencies(
        from,
        edge.to,
        edge.kind,
        footprint::options_of(ctx).in_range(),
    );
    assert forall|cell: BlockPos| #[trigger] cells::body_cells(from).contains(cell) implies a.kind(
        cell,
    ) == b.kind(cell) by {
        assert(needs.contains(cell));
    }
    assert forall|cell: BlockPos| #[trigger]
        cells::body_cells(edge.to).contains(cell) implies a.kind(cell) == b.kind(cell) by {
        assert(needs.contains(cell));
    }
    lemma_same_body(a, b, from);
    lemma_same_body(a, b, edge.to);
}

/// So are the columns beside the landing.
pub(crate) proof fn lemma_beside(
    from: BlockPos,
    edge: Edge,
    a: Terrain,
    b: Terrain,
    ctx: &MoveContext,
    dx: int,
    dz: int,
)
    requires
        a.by_blocks(),
        b.by_blocks(),
        untouched(from, edge, a, b, ctx),
        -1 <= dx <= 1,
        -1 <= dz <= 1,
    ensures
        same_body(a, b, world::shift(edge.to, dx, 0, dz)),
        a.kind(world::shift(edge.to, dx, 1, dz)) == b.kind(world::shift(edge.to, dx, 1, dz)),
{
    reveal(untouched);
    let needs = footprint::dependencies(
        from,
        edge.to,
        edge.kind,
        footprint::options_of(ctx).in_range(),
    );
    let at = world::shift(edge.to, dx, 0, dz);
    assert forall|cell: BlockPos| #[trigger] cells::body_cells(at).contains(cell) implies a.kind(
        cell,
    ) == b.kind(cell) by {
        assert(cells::near_cells(edge.to, 1).contains(cell));
        assert(needs.contains(cell));
    }
    lemma_same_body(a, b, at);
    assert(world::shift(at, 0, 1, 0) == world::shift(edge.to, dx, 1, dz));
}

pub(crate) proof fn lemma_whole_line(d: int, steps: int)
    requires
        steps > 0,
    ensures
        footprint::toward_zero(d * 0, steps) == 0,
        footprint::toward_zero(d * steps, steps) == d,
{
    assert((d * steps) / steps == d) by (nonlinear_arith)
        requires
            steps > 0,
    ;
    assert((-(d * steps)) / steps == -d) by (nonlinear_arith)
        requires
            steps > 0,
    ;
    assert(d * steps >= 0 <==> d >= 0) by (nonlinear_arith)
        requires
            steps > 0,
    ;
}

/// The line of a transition joins its ends.
pub(crate) proof fn lemma_line_ends(from: BlockPos, to: BlockPos)
    ensures
        footprint::transition_line(from, to).len() > 0,
        footprint::transition_line(from, to)[0] == from,
        footprint::transition_line(from, to).last() == to,
{
    let steps = footprint::axis_span(from, to);
    if steps > 0 {
        lemma_whole_line(to.x - from.x, steps);
        lemma_whole_line(to.y - from.y, steps);
        lemma_whole_line(to.z - from.z, steps);
    }
}

/// The radius that a footprint watches for lava.
pub open spec fn watched(ctx: &MoveContext) -> int {
    footprint::options_of(ctx).in_range().hazard_radius as int
}

/// Every column within the lava radius of either end is part of a footprint.
pub(crate) proof fn lemma_column(
    from: BlockPos,
    edge: Edge,
    a: Terrain,
    b: Terrain,
    ctx: &MoveContext,
    at: BlockPos,
    dx: int,
    dz: int,
)
    requires
        a.by_blocks(),
        b.by_blocks(),
        untouched(from, edge, a, b, ctx),
        at == from || at == edge.to,
        moves::chebyshev(dx, dz) <= watched(ctx),
    ensures
        moves::column_lava(a, at, dx, dz) == moves::column_lava(b, at, dx, dz),
{
    reveal(untouched);
    let radius = watched(ctx);
    let options = footprint::options_of(ctx).in_range();
    let needs = footprint::dependencies(from, edge.to, edge.kind, options);
    let line = footprint::transition_line(from, edge.to);
    lemma_line_ends(from, edge.to);
    if radius == 0 {
        lemma_ends(from, edge, a, b, ctx);
        assert(world::shift(at, 0, 0, 0) == at);
    } else {
        let there = world::shift(at, dx, 0, dz);
        let part = |p: BlockPos| cells::near_cells(p, radius);
        let k = if at == from {
            0
        } else {
            line.len() - 1
        };
        assert forall|cell: BlockPos| #[trigger]
            cells::body_cells(there).contains(cell) implies a.kind(cell) == b.kind(cell) by {
            assert(part(line[k]).contains(cell));
            assert(cells::swept(line, part).contains(cell));
            assert(needs.contains(cell));
        }
        lemma_same_body(a, b, there);
        assert(world::shift(there, 0, -1, 0) == world::shift(at, dx, -1, dz));
        assert(world::shift(there, 0, 1, 0) == world::shift(at, dx, 1, dz));
    }
}

/// Whether two worlds have lava in the same columns within a radius.
pub open spec fn same_lava(a: Terrain, b: Terrain, pos: BlockPos, radius: int) -> bool {
    forall|dx: int, dz: int|
        #![trigger moves::column_lava(a, pos, dx, dz)]
        #![trigger moves::column_lava(b, pos, dx, dz)]
        moves::chebyshev(dx, dz) <= radius ==> moves::column_lava(a, pos, dx, dz)
            == moves::column_lava(b, pos, dx, dz)
}

pub(crate) proof fn lemma_same_exposure(a: Terrain, b: Terrain, pos: BlockPos, radius: int)
    requires
        same_lava(a, b, pos, radius),
    ensures
        moves::exposure(a, pos, radius) == moves::exposure(b, pos, radius),
    decreases radius + 1,
{
    if radius >= 0 {
        if moves::lava_within(a, pos, radius) {
            let (dx, dz) = choose|dx: int, dz: int|
                moves::chebyshev(dx, dz) <= radius && #[trigger] moves::column_lava(a, pos, dx, dz);
            assert(moves::column_lava(b, pos, dx, dz));
        }
        if moves::lava_within(b, pos, radius) {
            let (dx, dz) = choose|dx: int, dz: int|
                moves::chebyshev(dx, dz) <= radius && #[trigger] moves::column_lava(b, pos, dx, dz);
            assert(moves::column_lava(a, pos, dx, dz));
        }
        lemma_same_exposure(a, b, pos, radius - 1);
    }
}

pub(crate) proof fn lemma_same_rings(a: Terrain, b: Terrain, pos: BlockPos, distance: int, radius: int)
    requires
        same_lava(a, b, pos, radius),
    ensures
        moves::ring_weight(a, pos, distance, radius) == moves::ring_weight(b, pos, distance, radius),
    decreases radius + 1 - distance,
{
    if distance <= radius {
        if moves::ring_lava(a, pos, distance) {
            let (dx, dz) = choose|dx: int, dz: int|
                moves::chebyshev(dx, dz) == distance && #[trigger] moves::column_lava(
                    a,
                    pos,
                    dx,
                    dz,
                );
            assert(moves::column_lava(b, pos, dx, dz));
        }
        if moves::ring_lava(b, pos, distance) {
            let (dx, dz) = choose|dx: int, dz: int|
                moves::chebyshev(dx, dz) == distance && #[trigger] moves::column_lava(
                    b,
                    pos,
                    dx,
                    dz,
                );
            assert(moves::column_lava(a, pos, dx, dz));
        }
        lemma_same_rings(a, b, pos, distance + 1, radius);
    }
}

/// What a transition owes at its ends is the same in both worlds.
pub(crate) proof fn lemma_same_tolls(from: BlockPos, edge: Edge, a: Terrain, b: Terrain, ctx: &MoveContext)
    requires
        a.by_blocks(),
        b.by_blocks(),
        untouched(from, edge, a, b, ctx),
    ensures
        tolls::lava_danger(a, from, ctx) == tolls::lava_danger(b, from, ctx),
        tolls::lava_danger(a, edge.to, ctx) == tolls::lava_danger(b, edge.to, ctx),
        tolls::standing_toll(a, edge.to, ctx) == tolls::standing_toll(b, edge.to, ctx),
{
    let radius = watched(ctx);
    let to = edge.to;
    assert forall|at: BlockPos, dx: int, dz: int|
        (at == from || at == to) && moves::chebyshev(dx, dz) <= radius implies #[trigger]
    moves::column_lava(a, at, dx, dz) == moves::column_lava(b, at, dx, dz) by {
        lemma_column(from, edge, a, b, ctx, at, dx, dz);
    }
    assert forall|dx: int, dz: int|
        #![trigger moves::column_lava(b, from, dx, dz)]
        moves::chebyshev(dx, dz) <= radius implies moves::column_lava(a, from, dx, dz)
        == moves::column_lava(b, from, dx, dz) by {}
    assert forall|dx: int, dz: int|
        #![trigger moves::column_lava(b, to, dx, dz)]
        moves::chebyshev(dx, dz) <= radius implies moves::column_lava(a, to, dx, dz)
        == moves::column_lava(b, to, dx, dz) by {}
    if let moves::LavaPolicy::Forbidden { clearance } = ctx.lava_policy {
        lemma_same_exposure(a, b, from, moves::scan_radius(clearance));
        lemma_same_exposure(a, b, to, moves::scan_radius(clearance));
    }
    lemma_same_rings(a, b, to, 1, moves::scan_radius(ctx.lava_proximity_radius));
    lemma_ends(from, edge, a, b, ctx);
    lemma_beside(from, edge, a, b, ctx, -1, -1);
    lemma_beside(from, edge, a, b, ctx, -1, 0);
    lemma_beside(from, edge, a, b, ctx, -1, 1);
    lemma_beside(from, edge, a, b, ctx, 0, -1);
    lemma_beside(from, edge, a, b, ctx, 0, 1);
    lemma_beside(from, edge, a, b, ctx, 1, -1);
    lemma_beside(from, edge, a, b, ctx, 1, 0);
    lemma_beside(from, edge, a, b, ctx, 1, 1);
}

/// Whether every untouched transition of `before` is still among `after`.
pub open spec fn kept(
    from: BlockPos,
    before: Seq<Edge>,
    after: Seq<Edge>,
    a: Terrain,
    b: Terrain,
    ctx: &MoveContext,
) -> bool {
    offer::all_edges(
        before,
        |edge: Edge| untouched(from, edge, a, b, ctx) ==> after.contains(edge),
    )
}

pub(crate) proof fn lemma_sum_kept(
    from: BlockPos,
    a1: Seq<Edge>,
    a2: Seq<Edge>,
    b1: Seq<Edge>,
    b2: Seq<Edge>,
    a: Terrain,
    b: Terrain,
    ctx: &MoveContext,
)
    requires
        kept(from, a1, b1, a, b, ctx),
        kept(from, a2, b2, a, b, ctx),
    ensures
        kept(from, a1 + a2, b1 + b2, a, b, ctx),
{
    assert forall|i: int| 0 <= i < (a1 + a2).len() && untouched(
        from,
        (#[trigger] (a1 + a2)[i]),
        a,
        b,
        ctx,
    ) implies (b1 + b2).contains((a1 + a2)[i]) by {
        let edge = (a1 + a2)[i];
        if i < a1.len() {
            assert(edge == a1[i]);
            let j = choose|j: int| 0 <= j < b1.len() && b1[j] == edge;
            assert((b1 + b2)[j] == edge);
        } else {
            assert(edge == a2[i - a1.len()]);
            let j = choose|j: int| 0 <= j < b2.len() && b2[j] == edge;
            assert((b1 + b2)[b1.len() + j] == edge);
        }
    }
}

pub(crate) proof fn lemma_in_turn_kept(
    from: BlockPos,
    before: (Seq<Edge>, Seq<Edge>, Seq<Edge>, Seq<Edge>),
    after: (Seq<Edge>, Seq<Edge>, Seq<Edge>, Seq<Edge>),
    a: Terrain,
    b: Terrain,
    ctx: &MoveContext,
)
    requires
        kept(from, before.0, after.0, a, b, ctx),
        kept(from, before.1, after.1, a, b, ctx),
        kept(from, before.2, after.2, a, b, ctx),
        kept(from, before.3, after.3, a, b, ctx),
    ensures
        kept(
            from,
            offer::in_turn(before.0, before.1, before.2, before.3),
            offer::in_turn(after.0, after.1, after.2, after.3),
            a,
            b,
            ctx,
        ),
{
    lemma_sum_kept(from, before.0, before.1, after.0, after.1, a, b, ctx);
    lemma_sum_kept(
        from,
        before.0 + before.1,
        before.2,
        after.0 + after.1,
        after.2,
        a,
        b,
        ctx,
    );
    lemma_sum_kept(
        from,
        before.0 + before.1 + before.2,
        before.3,
        after.0 + after.1 + after.2,
        after.3,
        a,
        b,
        ctx,
    );
}

/// A rule that offers at most one transition keeps it when it offers the same
/// one in an untouched world.
pub(crate) proof fn lemma_one_kept(
    from: BlockPos,
    before: Seq<Edge>,
    after: Seq<Edge>,
    a: Terrain,
    b: Terrain,
    ctx: &MoveContext,
)
    requires
        before.len() <= 1,
        before.len() == 1 && untouched(from, before[0], a, b, ctx) ==> after == before,
    ensures
        kept(from, before, after, a, b, ctx),
{
    assert forall|i: int| 0 <= i < before.len() && untouched(
        from,
        (#[trigger] before[i]),
        a,
        b,
        ctx,
    ) implies after.contains(before[i]) by {
        assert(after[0] == before[i]);
    }
}

/// The two body columns beside a diagonal are part of its footprint.
pub(crate) proof fn lemma_corners(from: BlockPos, edge: Edge, a: Terrain, b: Terrain, ctx: &MoveContext)
    requires
        a.by_blocks(),
        b.by_blocks(),
        untouched(from, edge, a, b, ctx),
        from.x != edge.to.x,
        from.z != edge.to.z,
    ensures
        same_body(a, b, BlockPos { x: edge.to.x, y: from.y, z: from.z }),
        same_body(a, b, BlockPos { x: from.x, y: from.y, z: edge.to.z }),
{
    reveal(untouched);
    let needs = footprint::dependencies(
        from,
        edge.to,
        edge.kind,
        footprint::options_of(ctx).in_range(),
    );
    let one = BlockPos { x: edge.to.x, y: from.y, z: from.z };
    let other = BlockPos { x: from.x, y: from.y, z: edge.to.z };
    assert forall|cell: BlockPos| #[trigger] cells::body_cells(one).contains(cell) implies a.kind(
        cell,
    ) == b.kind(cell) by {
        assert(needs.contains(cell));
    }
    assert forall|cell: BlockPos| #[trigger] cells::body_cells(other).contains(cell) implies a.kind(
        cell,
    ) == b.kind(cell) by {
        assert(needs.contains(cell));
    }
    lemma_same_body(a, b, one);
    lemma_same_body(a, b, other);
}

} // verus!
