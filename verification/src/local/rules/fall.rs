//! Walking off an edge.
use vstd::prelude::*;

use crate::adaptive::features::PrimitiveId;
use crate::arith::saturating_mul_u32;
use crate::local::moves::{
    generated_drop_limit, in_water, on_climbable, open, Edge, Move, MoveContext, WaterPolicy,
    SAFE_FALL,
};
use crate::local::world::{offset, Terrain, WorldView};
use crate::planning::{metadata_from_generated_edge, MotionMetadata};
use crate::pos::BlockPos;
use crate::types::{Cost, MoveKind};
use crate::local::world;
use crate::local::rules::offer;
use crate::arith;
use crate::local::moves;
use crate::planning;

verus! {

/// Walk off an edge and drop up to the configured limit.
///
/// Water counts as a landing: entering it cancels fall damage outright.
#[derive(Clone, Copy, PartialEq, Eq, Structural, Debug)]
pub struct FallMove;

/// The cost of falling `drop` blocks onto a landing that is wet or dry.
pub open spec fn fall_cost(drop: int, wet: bool, ctx: &MoveContext) -> Cost {
    arith::clamp_u32(
        ctx.costs.fall_base + ctx.costs.fall_per_block * drop + ctx.fall_damage_penalty * (if wet {
            0
        } else {
            moves::fall_damage(drop)
        }),
    )
}

/// The first landing at `drop` or more blocks below the column `step`. Water
/// that may not be entered, a ladder, and anything that is neither open nor a
/// landing end the fall.
pub open spec fn landing_below(
    step: BlockPos,
    drop: int,
    limit: int,
    terrain: Terrain,
    ctx: &MoveContext,
) -> Seq<Edge>
    decreases limit + 1 - drop,
{
    let feet = world::shift(step, 0, -drop, 0);
    if drop > limit || (ctx.water_policy == WaterPolicy::Forbidden && terrain.wet(feet))
        || terrain.climbable(feet) {
        Seq::empty()
    } else if terrain.stands(feet) {
        seq![
            Edge {
                to: feet,
                kind: MoveKind::Fall,
                cost: fall_cost(drop, terrain.wet(feet), ctx),
            },
        ]
    } else if terrain.free(feet) {
        landing_below(step, drop + 1, limit, terrain, ctx)
    } else {
        Seq::empty()
    }
}

/// The fall off one side: the column stepped into must be open and no floor.
pub open spec fn side_fall(
    from: BlockPos,
    dx: int,
    dz: int,
    terrain: Terrain,
    ctx: &MoveContext,
) -> Seq<Edge> {
    let step = world::shift(from, dx, 0, dz);
    if terrain.free(step) && terrain.free(world::shift(step, 0, 1, 0)) && !terrain.stands(step) {
        landing_below(step, 1, moves::drop_limit(ctx.max_fall), terrain, ctx)
    } else {
        Seq::empty()
    }
}

pub open spec fn fall_offers(from: BlockPos, terrain: Terrain, ctx: &MoveContext) -> Seq<Edge> {
    offer::in_turn(
        side_fall(from, 1, 0, terrain, ctx),
        side_fall(from, -1, 0, terrain, ctx),
        side_fall(from, 0, 1, terrain, ctx),
        side_fall(from, 0, -1, terrain, ctx),
    )
}

/// The cost of a fall, computed with saturating steps.
pub fn priced_fall(drop: i32, wet: bool, ctx: &MoveContext) -> (cost: Cost)
    requires
        1 <= drop <= 127,
    ensures
        cost == fall_cost(drop as int, wet, ctx),
{
    let hurt: u32 = if wet || drop <= SAFE_FALL {
        0
    } else {
        (drop - SAFE_FALL) as u32
    };
    proof {
        let p = ctx.costs.fall_per_block as int;
        let d = drop as int;
        assert(p * d >= 0) by (nonlinear_arith)
            requires
                p >= 0,
                d >= 0,
        ;
        let q = ctx.fall_damage_penalty as int;
        let h = hurt as int;
        assert(q * h >= 0) by (nonlinear_arith)
            requires
                q >= 0,
                h >= 0,
        ;
    }
    ctx.costs.fall_base.saturating_add(
        saturating_mul_u32(ctx.costs.fall_per_block, drop as u32),
    ).saturating_add(saturating_mul_u32(ctx.fall_damage_penalty, hurt))
}

fn push_side_fall<W: WorldView + ?Sized>(
    from: BlockPos,
    dx: i32,
    dz: i32,
    world: &W,
    ctx: &MoveContext,
    out: &mut Vec<Edge>,
)
    ensures
        final(out)@ == old(out)@ + side_fall(from, dx as int, dz as int, world.terrain(), ctx),
{
    let ghost t = world.terrain();
    let step = offset(from, dx, 0, dz);
    if !open(world, step) || !open(world, offset(step, 0, 1, 0)) || world.standable(step) {
        assert(out@ =~= old(out)@ + Seq::<Edge>::empty());
        return;
    }
    let limit: i32 = generated_drop_limit(ctx.max_fall);
    let mut drop: i32 = 1;
    while drop <= limit
        invariant
            t == world.terrain(),
            0 <= limit <= 127,
            1 <= drop <= limit + 1,
            out@ == old(out)@,
            landing_below(step, 1, limit as int, t, ctx) == landing_below(
                step,
                drop as int,
                limit as int,
                t,
                ctx,
            ),
            side_fall(from, dx as int, dz as int, t, ctx) == landing_below(
                step,
                1,
                limit as int,
                t,
                ctx,
            ),
        decreases limit + 1 - drop,
    {
        let feet = offset(step, 0, -drop, 0);
        let wet: bool = in_water(world, feet);
        if (ctx.water_policy == WaterPolicy::Forbidden && wet) || on_climbable(world, feet) {
            assert(out@ =~= old(out)@ + Seq::<Edge>::empty());
            return;
        }
        if world.standable(feet) {
            out.push(Edge { to: feet, kind: MoveKind::Fall, cost: priced_fall(drop, wet, ctx) });
            assert(out@ =~= old(out)@ + landing_below(step, drop as int, limit as int, t, ctx));
            return;
        }
        if !open(world, feet) {
            assert(out@ =~= old(out)@ + Seq::<Edge>::empty());
            return;
        }
        drop += 1;
    }
    assert(out@ =~= old(out)@ + Seq::<Edge>::empty());
}

impl Move for FallMove {
    open spec fn offers(&self, from: BlockPos, terrain: Terrain, ctx: &MoveContext) -> Seq<Edge> {
        fall_offers(from, terrain, ctx)
    }

    open spec fn describes(
        &self,
        from: BlockPos,
        edge: Edge,
        terrain: Terrain,
        ctx: &MoveContext,
    ) -> Option<MotionMetadata> {
        Some(
            planning::generated_metadata(
                PrimitiveId(PrimitiveId::FALL),
                from,
                edge.to,
                edge.kind,
                terrain,
                ctx,
                edge.cost,
            ),
        )
    }

    open spec fn respects_bound(&self) -> bool {
        true
    }

    fn candidates<W: WorldView + ?Sized>(
        &self,
        from: BlockPos,
        world: &W,
        ctx: &MoveContext,
        out: &mut Vec<Edge>,
    ) {
        push_side_fall(from, 1, 0, world, ctx, out);
        push_side_fall(from, -1, 0, world, ctx, out);
        push_side_fall(from, 0, 1, world, ctx, out);
        push_side_fall(from, 0, -1, world, ctx, out);
        proof {
            let t = world.terrain();
            offer::lemma_in_turn(
                old(out)@,
                side_fall(from, 1, 0, t, ctx),
                side_fall(from, -1, 0, t, ctx),
                side_fall(from, 0, 1, t, ctx),
                side_fall(from, 0, -1, t, ctx),
            );
        }
    }

    fn supports_builtin_heuristic(&self) -> (r: bool) {
        true
    }

    fn metadata<W: WorldView + ?Sized>(
        &self,
        from: BlockPos,
        edge: &Edge,
        world: &W,
        ctx: &MoveContext,
    ) -> (described: Option<MotionMetadata>) {
        Some(
            metadata_from_generated_edge(
                PrimitiveId(PrimitiveId::FALL),
                from,
                edge.to,
                edge.kind,
                world,
                ctx,
                edge.cost,
            ),
        )
    }
}

} // verus!
