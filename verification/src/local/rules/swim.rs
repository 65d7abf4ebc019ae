//! Swimming, wading in, and climbing out onto a bank.
use vstd::prelude::*;

use crate::adaptive::features::PrimitiveId;
use crate::local::moves::{
    dry_standable, in_water, on_climbable, open, Edge, Move, MoveContext, WaterPolicy,
};
use crate::local::world::{offset, Terrain, WorldView};
use crate::planning::{metadata_from_generated_edge, MotionMetadata};
use crate::pos::BlockPos;
use crate::types::MoveKind;
use crate::local::rules::offer;
use crate::local::world;
use crate::arith;
use crate::planning;

verus! {

/// Swim through water, wade into it from land, and climb back out onto a bank.
///
/// Every edge here is one block, because a drift is the only correction
/// available and one block is as far as it can be trusted to carry.
#[derive(Clone, Copy, PartialEq, Eq, Structural, Debug)]
pub struct SwimMove;

/// The cost of a stroke that ends in water.
pub open spec fn wet_stroke(ctx: &MoveContext) -> crate::types::Cost {
    arith::clamp_u32(ctx.costs.swim + ctx.water_penalty)
}

/// From dry land into water, level with the shore or one block down.
pub open spec fn wade(
    from: BlockPos,
    dx: int,
    dy: int,
    dz: int,
    terrain: Terrain,
    ctx: &MoveContext,
) -> Seq<Edge> {
    let to = world::shift(from, dx, dy, dz);
    offer::offer(
        terrain.wet(to) && terrain.stands(to),
        Edge { to, kind: MoveKind::Swim, cost: wet_stroke(ctx) },
    )
}

pub open spec fn wade_pair(
    from: BlockPos,
    dx: int,
    dz: int,
    terrain: Terrain,
    ctx: &MoveContext,
) -> Seq<Edge> {
    wade(from, dx, 0, dz, terrain, ctx) + wade(from, dx, -1, dz, terrain, ctx)
}

/// A level stroke. Leaving the water sideways is free of the toll.
pub open spec fn stroke(
    from: BlockPos,
    dx: int,
    dz: int,
    terrain: Terrain,
    ctx: &MoveContext,
) -> Seq<Edge> {
    let to = world::shift(from, dx, 0, dz);
    offer::offer(
        terrain.stands(to),
        Edge {
            to,
            kind: MoveKind::Swim,
            cost: if terrain.wet(to) {
                wet_stroke(ctx)
            } else {
                ctx.costs.swim
            },
        },
    )
}

/// Up or down the water column.
pub open spec fn dive(from: BlockPos, dy: int, terrain: Terrain, ctx: &MoveContext) -> Seq<Edge> {
    let to = world::shift(from, 0, dy, 0);
    offer::offer(
        terrain.wet(to) && terrain.stands(to),
        Edge { to, kind: MoveKind::Swim, cost: wet_stroke(ctx) },
    )
}

/// Out onto a bank one block above the surface.
pub open spec fn bank_exit(
    from: BlockPos,
    dx: int,
    dz: int,
    terrain: Terrain,
    ctx: &MoveContext,
) -> Seq<Edge> {
    let to = world::shift(from, dx, 1, dz);
    offer::offer(
        terrain.dry_stands(to),
        Edge { to, kind: MoveKind::Swim, cost: ctx.costs.swim_exit },
    )
}

/// Room for a swimmer to rise into.
pub open spec fn rise_room(terrain: Terrain, pos: BlockPos) -> bool {
    terrain.free(pos) || terrain.wet(pos)
}

pub open spec fn bank_exits(from: BlockPos, terrain: Terrain, ctx: &MoveContext) -> Seq<Edge> {
    if rise_room(terrain, world::shift(from, 0, 1, 0)) && rise_room(terrain, world::shift(from, 0, 2, 0)) {
        offer::in_turn(
            bank_exit(from, 1, 0, terrain, ctx),
            bank_exit(from, -1, 0, terrain, ctx),
            bank_exit(from, 0, 1, terrain, ctx),
            bank_exit(from, 0, -1, terrain, ctx),
        )
    } else {
        Seq::empty()
    }
}

/// A forbidding policy is a one-way door: dry land never enters water, but a
/// bot already in it may move however it needs to in order to get out.
pub open spec fn swim_offers(from: BlockPos, terrain: Terrain, ctx: &MoveContext) -> Seq<Edge> {
    if terrain.climbable(from) {
        Seq::empty()
    } else if !terrain.wet(from) {
        if ctx.water_policy == WaterPolicy::Forbidden {
            Seq::empty()
        } else {
            offer::in_turn(
                wade_pair(from, 1, 0, terrain, ctx),
                wade_pair(from, -1, 0, terrain, ctx),
                wade_pair(from, 0, 1, terrain, ctx),
                wade_pair(from, 0, -1, terrain, ctx),
            )
        }
    } else {
        offer::in_turn(
            stroke(from, 1, 0, terrain, ctx),
            stroke(from, -1, 0, terrain, ctx),
            stroke(from, 0, 1, terrain, ctx),
            stroke(from, 0, -1, terrain, ctx),
        ) + (dive(from, 1, terrain, ctx) + dive(from, -1, terrain, ctx)) + bank_exits(
            from,
            terrain,
            ctx,
        )
    }
}

fn push_wade<W: WorldView + ?Sized>(
    from: BlockPos,
    dx: i32,
    dy: i32,
    dz: i32,
    world: &W,
    ctx: &MoveContext,
    out: &mut Vec<Edge>,
)
    ensures
        final(out)@ == old(out)@ + wade(
            from,
            dx as int,
            dy as int,
            dz as int,
            world.terrain(),
            ctx,
        ),
{
    let to = offset(from, dx, dy, dz);
    if in_water(world, to) && world.standable(to) {
        out.push(
            Edge {
                to,
                kind: MoveKind::Swim,
                cost: ctx.costs.swim.saturating_add(ctx.water_penalty),
            },
        );
    }
}

fn push_wade_pair<W: WorldView + ?Sized>(
    from: BlockPos,
    dx: i32,
    dz: i32,
    world: &W,
    ctx: &MoveContext,
    out: &mut Vec<Edge>,
)
    ensures
        final(out)@ == old(out)@ + wade_pair(from, dx as int, dz as int, world.terrain(), ctx),
{
    push_wade(from, dx, 0, dz, world, ctx, out);
    push_wade(from, dx, -1, dz, world, ctx, out);
    proof {
        let t = world.terrain();
        offer::lemma_two_in_turn(
            old(out)@,
            wade(from, dx as int, 0, dz as int, t, ctx),
            wade(from, dx as int, -1, dz as int, t, ctx),
        );
    }
}

fn push_stroke<W: WorldView + ?Sized>(
    from: BlockPos,
    dx: i32,
    dz: i32,
    world: &W,
    ctx: &MoveContext,
    out: &mut Vec<Edge>,
)
    ensures
        final(out)@ == old(out)@ + stroke(from, dx as int, dz as int, world.terrain(), ctx),
{
    let to = offset(from, dx, 0, dz);
    if world.standable(to) {
        let cost: u32 = if in_water(world, to) {
            ctx.costs.swim.saturating_add(ctx.water_penalty)
        } else {
            ctx.costs.swim
        };
        out.push(Edge { to, kind: MoveKind::Swim, cost });
    }
}

fn push_dive<W: WorldView + ?Sized>(
    from: BlockPos,
    dy: i32,
    world: &W,
    ctx: &MoveContext,
    out: &mut Vec<Edge>,
)
    ensures
        final(out)@ == old(out)@ + dive(from, dy as int, world.terrain(), ctx),
{
    let to = offset(from, 0, dy, 0);
    if in_water(world, to) && world.standable(to) {
        out.push(
            Edge {
                to,
                kind: MoveKind::Swim,
                cost: ctx.costs.swim.saturating_add(ctx.water_penalty),
            },
        );
    }
}

fn push_bank_exit<W: WorldView + ?Sized>(
    from: BlockPos,
    dx: i32,
    dz: i32,
    world: &W,
    ctx: &MoveContext,
    out: &mut Vec<Edge>,
)
    ensures
        final(out)@ == old(out)@ + bank_exit(from, dx as int, dz as int, world.terrain(), ctx),
{
    let to = offset(from, dx, 1, dz);
    if dry_standable(world, to) {
        out.push(Edge { to, kind: MoveKind::Swim, cost: ctx.costs.swim_exit });
    }
}

fn has_rise_room<W: WorldView + ?Sized>(world: &W, pos: BlockPos) -> (r: bool)
    ensures
        r == rise_room(world.terrain(), pos),
{
    open(world, pos) || in_water(world, pos)
}

fn push_bank_exits<W: WorldView + ?Sized>(
    from: BlockPos,
    world: &W,
    ctx: &MoveContext,
    out: &mut Vec<Edge>,
)
    ensures
        final(out)@ == old(out)@ + bank_exits(from, world.terrain(), ctx),
{
    if !has_rise_room(world, offset(from, 0, 1, 0)) || !has_rise_room(
        world,
        offset(from, 0, 2, 0),
    ) {
        assert(out@ =~= old(out)@ + Seq::<Edge>::empty());
        return;
    }
    push_bank_exit(from, 1, 0, world, ctx, out);
    push_bank_exit(from, -1, 0, world, ctx, out);
    push_bank_exit(from, 0, 1, world, ctx, out);
    push_bank_exit(from, 0, -1, world, ctx, out);
    proof {
        let t = world.terrain();
        offer::lemma_in_turn(
            old(out)@,
            bank_exit(from, 1, 0, t, ctx),
            bank_exit(from, -1, 0, t, ctx),
            bank_exit(from, 0, 1, t, ctx),
            bank_exit(from, 0, -1, t, ctx),
        );
    }
}

impl Move for SwimMove {
    open spec fn offers(&self, from: BlockPos, terrain: Terrain, ctx: &MoveContext) -> Seq<Edge> {
        swim_offers(from, terrain, ctx)
    }

    open spec fn describes(
        &self,
        from: BlockPos,
        edge: Edge,
        terrain: Terrain,
        ctx: &MoveContext,
    ) -> Option<MotionMetadata> {
        let id = if terrain.wet(from) && !terrain.wet(edge.to) && edge.to.y > from.y {
            PrimitiveId::SWIM_EXIT
        } else {
            PrimitiveId::SWIM
        };
        Some(
            planning::generated_metadata(
                PrimitiveId(id),
                from,
                edge.to,
                edge.kind,
                terrain,
                ctx,
                edge.cost,
            ),
        )
    }

    open spec fn respects_bound(&self) -> bool {
        true
    }

    fn candidates<W: WorldView + ?Sized>(
        &self,
        from: BlockPos,
        world: &W,
        ctx: &MoveContext,
        out: &mut Vec<Edge>,
    ) {
        let ghost t = world.terrain();
        if on_climbable(world, from) {
            // Letting go of a ladder into water is a drop, not a stroke.
            assert(out@ =~= old(out)@ + Seq::<Edge>::empty());
            return;
        }
        if !in_water(world, from) {
            if ctx.water_policy == WaterPolicy::Forbidden {
                assert(out@ =~= old(out)@ + Seq::<Edge>::empty());
                return;
            }
            push_wade_pair(from, 1, 0, world, ctx, out);
            push_wade_pair(from, -1, 0, world, ctx, out);
            push_wade_pair(from, 0, 1, world, ctx, out);
            push_wade_pair(from, 0, -1, world, ctx, out);
            proof {
                offer::lemma_in_turn(
                    old(out)@,
                    wade_pair(from, 1, 0, t, ctx),
                    wade_pair(from, -1, 0, t, ctx),
                    wade_pair(from, 0, 1, t, ctx),
                    wade_pair(from, 0, -1, t, ctx),
                );
            }
            return;
        }
        push_stroke(from, 1, 0, world, ctx, out);
        push_stroke(from, -1, 0, world, ctx, out);
        push_stroke(from, 0, 1, world, ctx, out);
        push_stroke(from, 0, -1, world, ctx, out);
        let ghost strokes = out@;
        push_dive(from, 1, world, ctx, out);
        push_dive(from, -1, world, ctx, out);
        push_bank_exits(from, world, ctx, out);
        proof {
            offer::lemma_in_turn(
                old(out)@,
                stroke(from, 1, 0, t, ctx),
                stroke(from, -1, 0, t, ctx),
                stroke(from, 0, 1, t, ctx),
                stroke(from, 0, -1, t, ctx),
            );
            offer::lemma_two_in_turn(strokes, dive(from, 1, t, ctx), dive(from, -1, t, ctx));
            assert(out@ =~= old(out)@ + swim_offers(from, t, ctx));
        }
    }

    fn supports_builtin_heuristic(&self) -> (r: bool) {
        true
    }

    fn metadata<W: WorldView + ?Sized>(
        &self,
        from: BlockPos,
        edge: &Edge,
        world: &W,
        ctx: &MoveContext,
    ) -> (described: Option<MotionMetadata>) {
        let id: u16 = if in_water(world, from) && !in_water(world, edge.to) && edge.to.y > from.y {
            PrimitiveId::SWIM_EXIT
        } else {
            PrimitiveId::SWIM
        };
        Some(
            metadata_from_generated_edge(
                PrimitiveId(id),
                from,
                edge.to,
                edge.kind,
                world,
                ctx,
                edge.cost,
            ),
        )
    }
}

} // verus!
