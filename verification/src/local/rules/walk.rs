//! Walking and single-block jumps.
use vstd::prelude::*;

use crate::adaptive::features::PrimitiveId;
use crate::local::moves::{
    dry_standable, in_water, on_climbable, on_partial, open, Edge, Move, MoveContext,
};
use crate::local::world::{offset, Terrain, WorldView};
use crate::planning::{metadata_from_generated_edge, MotionMetadata};
use crate::pos::BlockPos;
use crate::types::MoveKind;
use crate::local::rules::offer;
use crate::local::world;
use crate::planning;

verus! {

/// Walks on level ground, stairs, and slabs. Diagonals require clear corners.
#[derive(Clone, Copy, PartialEq, Eq, Structural, Debug)]
pub struct WalkMove;

/// One block sideways on the level.
pub open spec fn level_walk(
    from: BlockPos,
    dx: int,
    dz: int,
    terrain: Terrain,
    ctx: &MoveContext,
) -> Seq<Edge> {
    let to = world::shift(from, dx, 0, dz);
    offer::offer(
        terrain.dry_stands(to),
        Edge { to, kind: MoveKind::Walk, cost: ctx.costs.cardinal_walk },
    )
}

/// Room for a whole body with its feet at `pos`.
pub open spec fn body_clear(terrain: Terrain, pos: BlockPos) -> bool {
    terrain.free(pos) && terrain.free(world::shift(pos, 0, 1, 0))
}

/// One block diagonally on the level; both corners must be clear.
pub open spec fn corner_walk(
    from: BlockPos,
    dx: int,
    dz: int,
    terrain: Terrain,
    ctx: &MoveContext,
) -> Seq<Edge> {
    let to = world::shift(from, dx, 0, dz);
    offer::offer(
        terrain.dry_stands(to) && body_clear(terrain, world::shift(from, dx, 0, 0)) && body_clear(
            terrain,
            world::shift(from, 0, 0, dz),
        ),
        Edge { to, kind: MoveKind::Walk, cost: ctx.costs.diagonal_walk },
    )
}

/// One block sideways and one up or down over partial blocks. Rising needs a
/// partial block underfoot and head room; descending needs one at either end.
pub open spec fn step_walk(
    from: BlockPos,
    dx: int,
    dy: int,
    dz: int,
    terrain: Terrain,
    ctx: &MoveContext,
) -> Seq<Edge> {
    let to = world::shift(from, dx, dy, dz);
    offer::offer(
        terrain.dry_stands(to) && (if dy == 1 {
            terrain.partial(from) && terrain.free(world::shift(from, 0, 2, 0))
        } else {
            terrain.partial(from) || terrain.partial(to)
        }),
        Edge { to, kind: MoveKind::Walk, cost: ctx.costs.step },
    )
}

pub open spec fn step_pair(
    from: BlockPos,
    dx: int,
    dz: int,
    terrain: Terrain,
    ctx: &MoveContext,
) -> Seq<Edge> {
    step_walk(from, dx, 1, dz, terrain, ctx) + step_walk(from, dx, -1, dz, terrain, ctx)
}

pub open spec fn level_walks(from: BlockPos, terrain: Terrain, ctx: &MoveContext) -> Seq<Edge> {
    offer::in_turn(
        level_walk(from, 1, 0, terrain, ctx),
        level_walk(from, -1, 0, terrain, ctx),
        level_walk(from, 0, 1, terrain, ctx),
        level_walk(from, 0, -1, terrain, ctx),
    )
}

pub open spec fn corner_walks(from: BlockPos, terrain: Terrain, ctx: &MoveContext) -> Seq<Edge> {
    offer::in_turn(
        corner_walk(from, 1, 1, terrain, ctx),
        corner_walk(from, 1, -1, terrain, ctx),
        corner_walk(from, -1, 1, terrain, ctx),
        corner_walk(from, -1, -1, terrain, ctx),
    )
}

pub open spec fn step_walks(from: BlockPos, terrain: Terrain, ctx: &MoveContext) -> Seq<Edge> {
    offer::in_turn(
        step_pair(from, 1, 0, terrain, ctx),
        step_pair(from, -1, 0, terrain, ctx),
        step_pair(from, 0, 1, terrain, ctx),
        step_pair(from, 0, -1, terrain, ctx),
    )
}

pub open spec fn walk_offers(from: BlockPos, terrain: Terrain, ctx: &MoveContext) -> Seq<Edge> {
    if terrain.wet(from) || terrain.climbable(from) {
        Seq::empty()
    } else {
        level_walks(from, terrain, ctx) + corner_walks(from, terrain, ctx) + step_walks(
            from,
            terrain,
            ctx,
        )
    }
}

fn push_level<W: WorldView + ?Sized>(
    from: BlockPos,
    dx: i32,
    dz: i32,
    world: &W,
    ctx: &MoveContext,
    out: &mut Vec<Edge>,
)
    ensures
        final(out)@ == old(out)@ + level_walk(from, dx as int, dz as int, world.terrain(), ctx),
{
    let to = offset(from, dx, 0, dz);
    if dry_standable(world, to) {
        out.push(Edge { to, kind: MoveKind::Walk, cost: ctx.costs.cardinal_walk });
    }
}

fn is_body_clear<W: WorldView + ?Sized>(world: &W, pos: BlockPos) -> (r: bool)
    ensures
        r == body_clear(world.terrain(), pos),
{
    open(world, pos) && open(world, offset(pos, 0, 1, 0))
}

fn push_corner<W: WorldView + ?Sized>(
    from: BlockPos,
    dx: i32,
    dz: i32,
    world: &W,
    ctx: &MoveContext,
    out: &mut Vec<Edge>,
)
    ensures
        final(out)@ == old(out)@ + corner_walk(from, dx as int, dz as int, world.terrain(), ctx),
{
    let to = offset(from, dx, 0, dz);
    if dry_standable(world, to) && is_body_clear(world, offset(from, dx, 0, 0)) && is_body_clear(
        world,
        offset(from, 0, 0, dz),
    ) {
        out.push(Edge { to, kind: MoveKind::Walk, cost: ctx.costs.diagonal_walk });
    }
}

fn push_step<W: WorldView + ?Sized>(
    from: BlockPos,
    dx: i32,
    dy: i32,
    dz: i32,
    world: &W,
    ctx: &MoveContext,
    out: &mut Vec<Edge>,
)
    ensures
        final(out)@ == old(out)@ + step_walk(
            from,
            dx as int,
            dy as int,
            dz as int,
            world.terrain(),
            ctx,
        ),
{
    let to = offset(from, dx, dy, dz);
    if !dry_standable(world, to) {
        return;
    }
    let walkable: bool = if dy == 1 {
        on_partial(world, from) && open(world, offset(from, 0, 2, 0))
    } else {
        on_partial(world, from) || on_partial(world, to)
    };
    if walkable {
        out.push(Edge { to, kind: MoveKind::Walk, cost: ctx.costs.step });
    }
}

fn push_step_pair<W: WorldView + ?Sized>(
    from: BlockPos,
    dx: i32,
    dz: i32,
    world: &W,
    ctx: &MoveContext,
    out: &mut Vec<Edge>,
)
    ensures
        final(out)@ == old(out)@ + step_pair(from, dx as int, dz as int, world.terrain(), ctx),
{
    push_step(from, dx, 1, dz, world, ctx, out);
    push_step(from, dx, -1, dz, world, ctx, out);
    proof {
        let t = world.terrain();
        offer::lemma_two_in_turn(
            old(out)@,
            step_walk(from, dx as int, 1, dz as int, t, ctx),
            step_walk(from, dx as int, -1, dz as int, t, ctx),
        );
    }
}

fn push_levels<W: WorldView + ?Sized>(
    from: BlockPos,
    world: &W,
    ctx: &MoveContext,
    out: &mut Vec<Edge>,
)
    ensures
        final(out)@ == old(out)@ + level_walks(from, world.terrain(), ctx),
{
    push_level(from, 1, 0, world, ctx, out);
    push_level(from, -1, 0, world, ctx, out);
    push_level(from, 0, 1, world, ctx, out);
    push_level(from, 0, -1, world, ctx, out);
    proof {
        let t = world.terrain();
        offer::lemma_in_turn(
            old(out)@,
            level_walk(from, 1, 0, t, ctx),
            level_walk(from, -1, 0, t, ctx),
            level_walk(from, 0, 1, t, ctx),
            level_walk(from, 0, -1, t, ctx),
        );
    }
}

fn push_corners<W: WorldView + ?Sized>(
    from: BlockPos,
    world: &W,
    ctx: &MoveContext,
    out: &mut Vec<Edge>,
)
    ensures
        final(out)@ == old(out)@ + corner_walks(from, world.terrain(), ctx),
{
    push_corner(from, 1, 1, world, ctx, out);
    push_corner(from, 1, -1, world, ctx, out);
    push_corner(from, -1, 1, world, ctx, out);
    push_corner(from, -1, -1, world, ctx, out);
    proof {
        let t = world.terrain();
        offer::lemma_in_turn(
            old(out)@,
            corner_walk(from, 1, 1, t, ctx),
            corner_walk(from, 1, -1, t, ctx),
            corner_walk(from, -1, 1, t, ctx),
            corner_walk(from, -1, -1, t, ctx),
        );
    }
}

fn push_steps<W: WorldView + ?Sized>(
    from: BlockPos,
    world: &W,
    ctx: &MoveContext,
    out: &mut Vec<Edge>,
)
    ensures
        final(out)@ == old(out)@ + step_walks(from, world.terrain(), ctx),
{
    push_step_pair(from, 1, 0, world, ctx, out);
    push_step_pair(from, -1, 0, world, ctx, out);
    push_step_pair(from, 0, 1, world, ctx, out);
    push_step_pair(from, 0, -1, world, ctx, out);
    proof {
        let t = world.terrain();
        offer::lemma_in_turn(
            old(out)@,
            step_pair(from, 1, 0, t, ctx),
            step_pair(from, -1, 0, t, ctx),
            step_pair(from, 0, 1, t, ctx),
            step_pair(from, 0, -1, t, ctx),
        );
    }
}

impl Move for WalkMove {
    open spec fn offers(&self, from: BlockPos, terrain: Terrain, ctx: &MoveContext) -> Seq<Edge> {
        walk_offers(from, terrain, ctx)
    }

    open spec fn describes(
        &self,
        from: BlockPos,
        edge: Edge,
        terrain: Terrain,
        ctx: &MoveContext,
    ) -> Option<MotionMetadata> {
        let id = if from.y != edge.to.y {
            PrimitiveId::STEP
        } else if from.x != edge.to.x && from.z != edge.to.z {
            PrimitiveId::WALK_DIAGONAL
        } else {
            PrimitiveId::WALK_CARDINAL
        };
        Some(
            planning::generated_metadata(
                PrimitiveId(id),
                from,
                edge.to,
                edge.kind,
                terrain,
                ctx,
                edge.cost,
            ),
        )
    }

    open spec fn respects_bound(&self) -> bool {
        true
    }

    fn candidates<W: WorldView + ?Sized>(
        &self,
        from: BlockPos,
        world: &W,
        ctx: &MoveContext,
        out: &mut Vec<Edge>,
    ) {
        // Feet in water means swimming, not walking, and feet on a ladder mean
        // climbing. Both belong to the rule that knows what the body is doing.
        if in_water(world, from) || on_climbable(world, from) {
            assert(out@ =~= old(out)@ + Seq::<Edge>::empty());
            return;
        }
        push_levels(from, world, ctx, out);
        push_corners(from, world, ctx, out);
        push_steps(from, world, ctx, out);
        proof {
            let t = world.terrain();
            offer::lemma_two_in_turn(
                old(out)@,
                level_walks(from, t, ctx),
                corner_walks(from, t, ctx),
            );
            offer::lemma_two_in_turn(
                old(out)@,
                level_walks(from, t, ctx) + corner_walks(from, t, ctx),
                step_walks(from, t, ctx),
            );
        }
    }

    fn supports_builtin_heuristic(&self) -> (r: bool) {
        true
    }

    fn metadata<W: WorldView + ?Sized>(
        &self,
        from: BlockPos,
        edge: &Edge,
        world: &W,
        ctx: &MoveContext,
    ) -> (described: Option<MotionMetadata>) {
        let id: u16 = if from.y != edge.to.y {
            PrimitiveId::STEP
        } else if from.x != edge.to.x && from.z != edge.to.z {
            PrimitiveId::WALK_DIAGONAL
        } else {
            PrimitiveId::WALK_CARDINAL
        };
        Some(
            metadata_from_generated_edge(
                PrimitiveId(id),
                from,
                edge.to,
                edge.kind,
                world,
                ctx,
                edge.cost,
            ),
        )
    }
}

/// Jump up a single block step in a cardinal direction.
#[derive(Clone, Copy, PartialEq, Eq, Structural, Debug)]
pub struct JumpMove;

/// One block sideways and one up. A partial block only raises the body half a
/// block, so it is charged as a step.
pub open spec fn hop(
    from: BlockPos,
    dx: int,
    dz: int,
    terrain: Terrain,
    ctx: &MoveContext,
) -> Seq<Edge> {
    let to = world::shift(from, dx, 1, dz);
    offer::offer(
        terrain.dry_stands(to),
        Edge {
            to,
            kind: MoveKind::Jump,
            cost: if terrain.partial(to) {
                ctx.costs.step
            } else {
                ctx.costs.jump
            },
        },
    )
}

pub open spec fn jump_offers(from: BlockPos, terrain: Terrain, ctx: &MoveContext) -> Seq<Edge> {
    if terrain.wet(from) || terrain.climbable(from) || !terrain.free(world::shift(from, 0, 2, 0)) {
        Seq::empty()
    } else {
        offer::in_turn(
            hop(from, 1, 0, terrain, ctx),
            hop(from, -1, 0, terrain, ctx),
            hop(from, 0, 1, terrain, ctx),
            hop(from, 0, -1, terrain, ctx),
        )
    }
}

fn push_hop<W: WorldView + ?Sized>(
    from: BlockPos,
    dx: i32,
    dz: i32,
    world: &W,
    ctx: &MoveContext,
    out: &mut Vec<Edge>,
)
    ensures
        final(out)@ == old(out)@ + hop(from, dx as int, dz as int, world.terrain(), ctx),
{
    let to = offset(from, dx, 1, dz);
    if dry_standable(world, to) {
        let cost: u32 = if on_partial(world, to) {
            ctx.costs.step
        } else {
            ctx.costs.jump
        };
        out.push(Edge { to, kind: MoveKind::Jump, cost });
    }
}

impl Move for JumpMove {
    open spec fn offers(&self, from: BlockPos, terrain: Terrain, ctx: &MoveContext) -> Seq<Edge> {
        jump_offers(from, terrain, ctx)
    }

    open spec fn describes(
        &self,
        from: BlockPos,
        edge: Edge,
        terrain: Terrain,
        ctx: &MoveContext,
    ) -> Option<MotionMetadata> {
        Some(
            planning::generated_metadata(
                PrimitiveId(PrimitiveId::JUMP),
                from,
                edge.to,
                edge.kind,
                terrain,
                ctx,
                edge.cost,
            ),
        )
    }

    open spec fn respects_bound(&self) -> bool {
        true
    }

    fn candidates<W: WorldView + ?Sized>(
        &self,
        from: BlockPos,
        world: &W,
        ctx: &MoveContext,
        out: &mut Vec<Edge>,
    ) {
        // In water the jump key is a slow upward drift, and on a ladder it is
        // the climb input; neither is a launch off the ground.
        if in_water(world, from) || on_climbable(world, from) || !open(
            world,
            offset(from, 0, 2, 0),
        ) {
            assert(out@ =~= old(out)@ + Seq::<Edge>::empty());
            return;
        }
        push_hop(from, 1, 0, world, ctx, out);
        push_hop(from, -1, 0, world, ctx, out);
        push_hop(from, 0, 1, world, ctx, out);
        push_hop(from, 0, -1, world, ctx, out);
        proof {
            let t = world.terrain();
            offer::lemma_in_turn(
                old(out)@,
                hop(from, 1, 0, t, ctx),
                hop(from, -1, 0, t, ctx),
                hop(from, 0, 1, t, ctx),
                hop(from, 0, -1, t, ctx),
            );
        }
    }

    fn supports_builtin_heuristic(&self) -> (r: bool) {
        true
    }

    fn metadata<W: WorldView + ?Sized>(
        &self,
        from: BlockPos,
        edge: &Edge,
        world: &W,
        ctx: &MoveContext,
    ) -> (described: Option<MotionMetadata>) {
        Some(
            metadata_from_generated_edge(
                PrimitiveId(PrimitiveId::JUMP),
                from,
                edge.to,
                edge.kind,
                world,
                ctx,
                edge.cost,
            ),
        )
    }
}

} // verus!
