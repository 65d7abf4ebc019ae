//! Which falls are offered, block by block.
use vstd::prelude::*;

use crate::arith;
use crate::local::moves;
use crate::local::moves::{Edge, Move, MoveContext};
use crate::local::rules::fall;
use crate::local::rules::fall::FallMove;
use crate::local::rules::offer;
use crate::local::rules::step_laws;
use crate::local::world;
use crate::local::world::Terrain;
use crate::pos::BlockPos;
use crate::types::MoveKind;

verus! {

/// The position `drop` blocks below `pos`.
pub open spec fn under(pos: BlockPos, drop: int) -> BlockPos {
    BlockPos { y: (pos.y - drop) as i32, ..pos }
}

/// The deepest drop that is offered: the configured one, between none and 127
/// blocks.
pub open spec fn deepest(ctx: &MoveContext) -> int {
    arith::min_int(arith::max_int(ctx.max_fall as int, 0), 127)
}

/// What a drop costs: a base, a share for every block, and for every block
/// beyond the third a penalty for the harm, which water spares.
pub open spec fn drop_price(drop: int, wet: bool, ctx: &MoveContext) -> int {
    let harm = if wet || drop <= 3 {
        0
    } else {
        drop - 3
    };
    arith::min_int(
        ctx.costs.fall_base + ctx.costs.fall_per_block * drop + ctx.fall_damage_penalty * harm,
        u32::MAX as int,
    )
}

/// Whether a body that falls from `column` passes the block `drop` below it
/// without anything to stop it.
pub open spec fn passes(terrain: Terrain, column: BlockPos, drop: int) -> bool {
    let at = under(column, drop);
    (terrain.kind(at) is Air || terrain.kind(at) is Passable) && !terrain.stands(at)
}

/// Whether a body that falls from `column` lands `drop` below it.
pub open spec fn lands(terrain: Terrain, column: BlockPos, drop: int, ctx: &MoveContext) -> bool {
    let at = under(column, drop);
    &&& terrain.stands(at)
    &&& !(terrain.kind(at) is Climbable)
    &&& !(ctx.water_policy is Forbidden && terrain.kind(at) is Water)
}

proof fn lemma_landing(
    column: BlockPos,
    drop: int,
    limit: int,
    edge: Edge,
    terrain: Terrain,
    ctx: &MoveContext,
)
    requires
        step_laws::inland(column),
        0 <= drop,
        limit <= 127,
    ensures
        fall::landing_below(column, drop, limit, terrain, ctx).contains(edge) <==> {
            let depth = column.y - edge.to.y;
            &&& drop <= depth <= limit
            &&& edge.to == under(column, depth)
            &&& forall|k: int| drop <= k < depth ==> #[trigger] passes(terrain, column, k)
            &&& lands(terrain, column, depth, ctx)
            &&& edge.kind is Fall
            &&& edge.cost == drop_price(depth, terrain.kind(edge.to) is Water, ctx)
        },
    decreases limit + 1 - drop,
{
    broadcast use offer::lemma_contains_nothing;

    let depth = column.y - edge.to.y;
    if drop <= limit {
        assert(world::shift(column, 0, -drop, 0) == under(column, drop));
        lemma_landing(column, drop + 1, limit, edge, terrain, ctx);
        let here = fall::landing_below(column, drop, limit, terrain, ctx);
        let landed = Edge {
            to: under(column, drop),
            kind: MoveKind::Fall,
            cost: fall::fall_cost(drop, terrain.wet(under(column, drop)), ctx),
        };
        if lands(terrain, column, drop, ctx) {
            assert(here == seq![landed]);
            assert(here[0] == landed);
            assert(here.contains(edge) <==> edge == landed);
            lemma_price(drop, terrain.wet(under(column, drop)), ctx);
            assert(!passes(terrain, column, drop));
        } else if passes(terrain, column, drop) {
            assert(here == fall::landing_below(column, drop + 1, limit, terrain, ctx));
            assert((forall|k: int| drop + 1 <= k < depth ==> #[trigger] passes(terrain, column, k))
                ==> (forall|k: int| drop <= k < depth ==> #[trigger] passes(terrain, column, k)));
        } else {
            assert(here =~= Seq::empty());
            if drop < depth && (forall|k: int|
                drop <= k < depth ==> #[trigger] passes(terrain, column, k)) {
                assert(passes(terrain, column, drop));
            }
        }
    }
}

proof fn lemma_price(drop: int, wet: bool, ctx: &MoveContext)
    requires
        drop >= 0,
    ensures
        fall::fall_cost(drop, wet, ctx) == drop_price(drop, wet, ctx),
{
    let harm = if wet || drop <= 3 {
        0
    } else {
        drop - 3
    };
    assert(ctx.costs.fall_per_block * drop >= 0) by (nonlinear_arith)
        requires
            drop >= 0,
    ;
    assert(ctx.fall_damage_penalty * harm >= 0) by (nonlinear_arith)
        requires
            harm >= 0,
    ;
    let p = ctx.fall_damage_penalty as int;
    assert(p * 0 == 0) by (nonlinear_arith);
}

/// Whether falling leads from `from` along an edge.
pub open spec fn droppable_step(
    from: BlockPos,
    edge: Edge,
    terrain: Terrain,
    ctx: &MoveContext,
) -> bool {
    let to = edge.to;
    let depth = from.y - to.y;
    let column = BlockPos { y: from.y, ..to };
    &&& edge.kind is Fall
    &&& step_laws::sideways(from, to)
    &&& 1 <= depth <= deepest(ctx)
    &&& step_laws::empty_at(terrain, to.x as int, from.y + 1, to.z as int)
    &&& forall|k: int| 0 <= k < depth ==> #[trigger] passes(terrain, column, k)
    &&& lands(terrain, column, depth, ctx)
    &&& edge.cost == drop_price(depth, terrain.kind(to) is Water, ctx)
}

/// Falling offers exactly the first landing off each side of the body that is
/// no deeper than allowed: the body fits through the side, nothing on the way
/// down stops or holds it, and it lands on neither a ladder nor water that it
/// may not enter.
pub proof fn falls_end_at_their_first_landing(
    from: BlockPos,
    edge: Edge,
    terrain: Terrain,
    ctx: &MoveContext,
)
    requires
        step_laws::inland(from),
        i32::MIN + 400 <= from.x <= i32::MAX - 400,
        i32::MIN + 400 <= from.z <= i32::MAX - 400,
    ensures
        FallMove.offers(from, terrain, ctx).contains(edge) <==> droppable_step(
            from,
            edge,
            terrain,
            ctx,
        ),
{
    lemma_side(from, 1, 0, edge, terrain, ctx);
    lemma_side(from, -1, 0, edge, terrain, ctx);
    lemma_side(from, 0, 1, edge, terrain, ctx);
    lemma_side(from, 0, -1, edge, terrain, ctx);
    let a = fall::side_fall(from, 1, 0, terrain, ctx);
    let b = fall::side_fall(from, -1, 0, terrain, ctx);
    let c = fall::side_fall(from, 0, 1, terrain, ctx);
    let d = fall::side_fall(from, 0, -1, terrain, ctx);
    offer::lemma_contains_add(a, b, edge);
    offer::lemma_contains_add(a + b, c, edge);
    offer::lemma_contains_add(a + b + c, d, edge);
}

proof fn lemma_side(
    from: BlockPos,
    dx: int,
    dz: int,
    edge: Edge,
    terrain: Terrain,
    ctx: &MoveContext,
)
    requires
        step_laws::inland(from),
        i32::MIN + 400 <= from.x <= i32::MAX - 400,
        i32::MIN + 400 <= from.z <= i32::MAX - 400,
        arith::abs_int(dx) + arith::abs_int(dz) == 1,
    ensures
        fall::side_fall(from, dx, dz, terrain, ctx).contains(edge) <==> edge.to.x == from.x + dx
            && edge.to.z == from.z + dz && droppable_step(from, edge, terrain, ctx),
{
    broadcast use offer::lemma_contains_nothing;

    let column = world::shift(from, dx, 0, dz);
    let depth = from.y - edge.to.y;
    lemma_landing(column, 1, moves::drop_limit(ctx.max_fall), edge, terrain, ctx);
    assert(under(column, 0) == column);
    assert(world::shift(column, 0, 1, 0) == (BlockPos { y: (from.y + 1) as i32, ..column }));
    if edge.to.x == from.x + dx && edge.to.z == from.z + dz {
        assert(column == (BlockPos { y: from.y, ..edge.to }));
        assert(edge.to == under(column, depth));
        if droppable_step(from, edge, terrain, ctx) {
            assert(passes(terrain, column, 0));
        }
        if fall::side_fall(from, dx, dz, terrain, ctx).contains(edge) {
            assert(passes(terrain, column, 0));
            assert forall|k: int| 0 <= k < depth implies #[trigger] passes(terrain, column, k) by {
                if k > 0 {
                    assert(1 <= k);
                }
            }
        }
    }
}

/// A fall sweeps the body through nothing but empty blocks: the side it leaves
/// by, at the feet and at the head, and every block on the way down.
pub proof fn falls_pass_only_empty_blocks(
    from: BlockPos,
    edge: Edge,
    terrain: Terrain,
    ctx: &MoveContext,
    y: int,
)
    requires
        step_laws::inland(from),
        i32::MIN + 400 <= from.x <= i32::MAX - 400,
        i32::MIN + 400 <= from.z <= i32::MAX - 400,
        FallMove.offers(from, terrain, ctx).contains(edge),
        edge.to.y < y <= from.y + 1,
    ensures
        step_laws::empty_at(terrain, edge.to.x as int, y, edge.to.z as int),
        y <= from.y ==> !terrain.stands(BlockPos { y: y as i32, ..edge.to }),
{
    falls_end_at_their_first_landing(from, edge, terrain, ctx);
    let column = BlockPos { y: from.y, ..edge.to };
    if y <= from.y {
        assert(passes(terrain, column, from.y - y));
    }
}

/// A deeper fall never costs less, and one into water never more than one of
/// the same depth onto the ground.
pub proof fn deeper_falls_cost_no_less(drop: int, deeper: int, wet: bool, ctx: &MoveContext)
    requires
        1 <= drop <= deeper,
    ensures
        fall::fall_cost(drop, wet, ctx) <= fall::fall_cost(deeper, wet, ctx),
        fall::fall_cost(drop, true, ctx) <= fall::fall_cost(drop, false, ctx),
        drop <= 3 ==> fall::fall_cost(drop, true, ctx) == fall::fall_cost(drop, false, ctx),
{
    lemma_price(drop, wet, ctx);
    lemma_price(deeper, wet, ctx);
    lemma_price(drop, true, ctx);
    lemma_price(drop, false, ctx);
    let p = ctx.costs.fall_per_block as int;
    let q = ctx.fall_damage_penalty as int;
    assert(p * drop <= p * deeper) by (nonlinear_arith)
        requires
            p >= 0,
            drop <= deeper,
    ;
    let less = if wet || drop <= 3 {
        0
    } else {
        drop - 3
    };
    let more = if wet || deeper <= 3 {
        0
    } else {
        deeper - 3
    };
    assert(q * less <= q * more) by (nonlinear_arith)
        requires
            q >= 0,
            less <= more,
    ;
    let dry = if drop <= 3 {
        0
    } else {
        drop - 3
    };
    assert(q * 0 == 0) by (nonlinear_arith);
    assert(q * dry >= 0) by (nonlinear_arith)
        requires
            q >= 0,
            dry >= 0,
    ;
}

} // verus!
