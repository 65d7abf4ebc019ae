//! Ladders, vines and scaffolding.
use vstd::prelude::*;

use crate::adaptive::features::PrimitiveId;
use crate::local::moves::{dry_standable, in_water, on_climbable, open, Edge, Move, MoveContext};
use crate::local::world::{offset, Terrain, WorldView};
use crate::planning::{metadata_from_generated_edge, MotionMetadata};
use crate::pos::BlockPos;
use crate::types::MoveKind;
use crate::local::rules::offer;
use crate::local::world;
use crate::arith;
use crate::planning;

verus! {

/// Climb a ladder, vine or scaffolding, and step on and off it.
#[derive(Clone, Copy, PartialEq, Eq, Structural, Debug)]
pub struct ClimbMove;

/// Grabbing a ladder from the side. The rung above the feet costs another rung
/// and a jump, so that stepping straight in is preferred where both exist.
pub open spec fn grab(
    from: BlockPos,
    dx: int,
    dy: int,
    dz: int,
    terrain: Terrain,
    ctx: &MoveContext,
) -> Seq<Edge> {
    let to = world::shift(from, dx, dy, dz);
    let costs = ctx.costs;
    offer::offer(
        terrain.climbable(to) && terrain.stands(to),
        Edge {
            to,
            kind: MoveKind::Climb,
            cost: if dy == 1 {
                arith::clamp_u32(costs.climb + costs.climb + costs.jump)
            } else {
                costs.climb
            },
        },
    )
}

pub open spec fn grab_pair(
    from: BlockPos,
    dx: int,
    dz: int,
    terrain: Terrain,
    ctx: &MoveContext,
) -> Seq<Edge> {
    grab(from, dx, 0, dz, terrain, ctx) + grab(from, dx, 1, dz, terrain, ctx)
}

/// One rung up or down.
pub open spec fn rung(from: BlockPos, dy: int, terrain: Terrain, ctx: &MoveContext) -> Seq<Edge> {
    let to = world::shift(from, 0, dy, 0);
    offer::offer(
        terrain.climbable(to) && terrain.stands(to),
        Edge { to, kind: MoveKind::Climb, cost: ctx.costs.climb },
    )
}

/// Getting off onto a ledge level with the feet or one rung up, which needs
/// head room to rise.
pub open spec fn dismount(
    from: BlockPos,
    dx: int,
    dy: int,
    dz: int,
    terrain: Terrain,
    ctx: &MoveContext,
) -> Seq<Edge> {
    let to = world::shift(from, dx, dy, dz);
    offer::offer(
        terrain.dry_stands(to) && (dy == 1 ==> terrain.free(world::shift(from, 0, 2, 0))),
        Edge { to, kind: MoveKind::Climb, cost: ctx.costs.climb },
    )
}

pub open spec fn dismount_pair(
    from: BlockPos,
    dx: int,
    dz: int,
    terrain: Terrain,
    ctx: &MoveContext,
) -> Seq<Edge> {
    dismount(from, dx, 0, dz, terrain, ctx) + dismount(from, dx, 1, dz, terrain, ctx)
}

pub open spec fn climb_offers(from: BlockPos, terrain: Terrain, ctx: &MoveContext) -> Seq<Edge> {
    if !terrain.climbable(from) {
        if terrain.wet(from) {
            Seq::empty()
        } else {
            offer::in_turn(
                grab_pair(from, 1, 0, terrain, ctx),
                grab_pair(from, -1, 0, terrain, ctx),
                grab_pair(from, 0, 1, terrain, ctx),
                grab_pair(from, 0, -1, terrain, ctx),
            )
        }
    } else {
        rung(from, 1, terrain, ctx) + rung(from, -1, terrain, ctx)
            + offer::in_turn(
            dismount_pair(from, 1, 0, terrain, ctx),
            dismount_pair(from, -1, 0, terrain, ctx),
            dismount_pair(from, 0, 1, terrain, ctx),
            dismount_pair(from, 0, -1, terrain, ctx),
        )
    }
}

fn push_grab<W: WorldView + ?Sized>(
    from: BlockPos,
    dx: i32,
    dy: i32,
    dz: i32,
    world: &W,
    ctx: &MoveContext,
    out: &mut Vec<Edge>,
)
    ensures
        final(out)@ == old(out)@ + grab(
            from,
            dx as int,
            dy as int,
            dz as int,
            world.terrain(),
            ctx,
        ),
{
    let to = offset(from, dx, dy, dz);
    if on_climbable(world, to) && world.standable(to) {
        let costs = ctx.costs;
        let cost: u32 = if dy == 1 {
            costs.climb.saturating_add(costs.climb.saturating_add(costs.jump))
        } else {
            costs.climb
        };
        out.push(Edge { to, kind: MoveKind::Climb, cost });
    }
}

fn push_grab_pair<W: WorldView + ?Sized>(
    from: BlockPos,
    dx: i32,
    dz: i32,
    world: &W,
    ctx: &MoveContext,
    out: &mut Vec<Edge>,
)
    ensures
        final(out)@ == old(out)@ + grab_pair(from, dx as int, dz as int, world.terrain(), ctx),
{
    push_grab(from, dx, 0, dz, world, ctx, out);
    push_grab(from, dx, 1, dz, world, ctx, out);
    proof {
        let t = world.terrain();
        offer::lemma_two_in_turn(
            old(out)@,
            grab(from, dx as int, 0, dz as int, t, ctx),
            grab(from, dx as int, 1, dz as int, t, ctx),
        );
    }
}

fn push_rung<W: WorldView + ?Sized>(
    from: BlockPos,
    dy: i32,
    world: &W,
    ctx: &MoveContext,
    out: &mut Vec<Edge>,
)
    ensures
        final(out)@ == old(out)@ + rung(from, dy as int, world.terrain(), ctx),
{
    let to = offset(from, 0, dy, 0);
    if on_climbable(world, to) && world.standable(to) {
        out.push(Edge { to, kind: MoveKind::Climb, cost: ctx.costs.climb });
    }
}

fn push_dismount<W: WorldView + ?Sized>(
    from: BlockPos,
    dx: i32,
    dy: i32,
    dz: i32,
    world: &W,
    ctx: &MoveContext,
    out: &mut Vec<Edge>,
)
    ensures
        final(out)@ == old(out)@ + dismount(
            from,
            dx as int,
            dy as int,
            dz as int,
            world.terrain(),
            ctx,
        ),
{
    let to = offset(from, dx, dy, dz);
    if dry_standable(world, to) && (dy != 1 || open(world, offset(from, 0, 2, 0))) {
        out.push(Edge { to, kind: MoveKind::Climb, cost: ctx.costs.climb });
    }
}

fn push_dismount_pair<W: WorldView + ?Sized>(
    from: BlockPos,
    dx: i32,
    dz: i32,
    world: &W,
    ctx: &MoveContext,
    out: &mut Vec<Edge>,
)
    ensures
        final(out)@ == old(out)@ + dismount_pair(from, dx as int, dz as int, world.terrain(), ctx),
{
    push_dismount(from, dx, 0, dz, world, ctx, out);
    push_dismount(from, dx, 1, dz, world, ctx, out);
    proof {
        let t = world.terrain();
        offer::lemma_two_in_turn(
            old(out)@,
            dismount(from, dx as int, 0, dz as int, t, ctx),
            dismount(from, dx as int, 1, dz as int, t, ctx),
        );
    }
}

impl Move for ClimbMove {
    open spec fn offers(&self, from: BlockPos, terrain: Terrain, ctx: &MoveContext) -> Seq<Edge> {
        climb_offers(from, terrain, ctx)
    }

    open spec fn describes(
        &self,
        from: BlockPos,
        edge: Edge,
        terrain: Terrain,
        ctx: &MoveContext,
    ) -> Option<MotionMetadata> {
        Some(
            planning::generated_metadata(
                PrimitiveId(PrimitiveId::CLIMB),
                from,
                edge.to,
                edge.kind,
                terrain,
                ctx,
                edge.cost,
            ),
        )
    }

    open spec fn respects_bound(&self) -> bool {
        true
    }

    fn candidates<W: WorldView + ?Sized>(
        &self,
        from: BlockPos,
        world: &W,
        ctx: &MoveContext,
        out: &mut Vec<Edge>,
    ) {
        let ghost t = world.terrain();
        if !on_climbable(world, from) {
            // Swimming onto a ladder is left out: the two physics states fight.
            if in_water(world, from) {
                assert(out@ =~= old(out)@ + Seq::<Edge>::empty());
                return;
            }
            push_grab_pair(from, 1, 0, world, ctx, out);
            push_grab_pair(from, -1, 0, world, ctx, out);
            push_grab_pair(from, 0, 1, world, ctx, out);
            push_grab_pair(from, 0, -1, world, ctx, out);
            proof {
                offer::lemma_in_turn(
                    old(out)@,
                    grab_pair(from, 1, 0, t, ctx),
                    grab_pair(from, -1, 0, t, ctx),
                    grab_pair(from, 0, 1, t, ctx),
                    grab_pair(from, 0, -1, t, ctx),
                );
            }
            return;
        }
        push_rung(from, 1, world, ctx, out);
        push_rung(from, -1, world, ctx, out);
        let ghost rungs = out@;
        push_dismount_pair(from, 1, 0, world, ctx, out);
        push_dismount_pair(from, -1, 0, world, ctx, out);
        push_dismount_pair(from, 0, 1, world, ctx, out);
        push_dismount_pair(from, 0, -1, world, ctx, out);
        proof {
            offer::lemma_two_in_turn(old(out)@, rung(from, 1, t, ctx), rung(from, -1, t, ctx));
            offer::lemma_in_turn(
                rungs,
                dismount_pair(from, 1, 0, t, ctx),
                dismount_pair(from, -1, 0, t, ctx),
                dismount_pair(from, 0, 1, t, ctx),
                dismount_pair(from, 0, -1, t, ctx),
            );
            assert(out@ =~= old(out)@ + climb_offers(from, t, ctx));
        }
    }

    fn supports_builtin_heuristic(&self) -> (r: bool) {
        true
    }

    fn metadata<W: WorldView + ?Sized>(
        &self,
        from: BlockPos,
        edge: &Edge,
        world: &W,
        ctx: &MoveContext,
    ) -> (described: Option<MotionMetadata>) {
        Some(
            metadata_from_generated_edge(
                PrimitiveId(PrimitiveId::CLIMB),
                from,
                edge.to,
                edge.kind,
                world,
                ctx,
                edge.cost,
            ),
        )
    }
}

} // verus!
