//! The toll for standing on a block, and the risks a search ranks by.
use vstd::prelude::*;

use crate::arith;
use crate::local::moves;
use crate::local::moves::{
    lava_penalty, lava_proximity_penalty, wall_proximity_penalty, LavaPolicy, MoveContext,
    WaterPolicy,
};
use crate::local::world;
use crate::local::world::{offset, BlockKind, Terrain, WorldView};
use crate::pos::BlockPos;
use crate::types::Cost;

verus! {

/// Whether the block `(dx, dz)` away is a partial block taller than `height`.
pub open spec fn taller_beside(
    terrain: Terrain,
    pos: BlockPos,
    dx: int,
    dz: int,
    height: u8,
) -> bool {
    match terrain.kind(world::shift(pos, dx, 0, dz)) {
        BlockKind::Step(there) => there > height,
        _ => false,
    }
}

/// Whether the body stands on a partial block with a taller one at any of its
/// eight neighbours, where a corner of the body can be lifted.
pub open spec fn grazes(terrain: Terrain, pos: BlockPos) -> bool {
    match terrain.kind(pos) {
        BlockKind::Step(here) => {
            ||| taller_beside(terrain, pos, -1, -1, here)
            ||| taller_beside(terrain, pos, -1, 0, here)
            ||| taller_beside(terrain, pos, -1, 1, here)
            ||| taller_beside(terrain, pos, 0, -1, here)
            ||| taller_beside(terrain, pos, 0, 1, here)
            ||| taller_beside(terrain, pos, 1, -1, here)
            ||| taller_beside(terrain, pos, 1, 0, here)
            ||| taller_beside(terrain, pos, 1, 1, here)
        },
        _ => false,
    }
}

pub open spec fn grazing_toll(terrain: Terrain, pos: BlockPos, ctx: &MoveContext) -> Cost {
    if grazes(terrain, pos) {
        ctx.grazing_step_penalty
    } else {
        0
    }
}

/// The toll for standing on something held up by water while water is
/// forbidden: a lily pad is usable, but one overshoot from a dead end.
pub open spec fn stone_toll(terrain: Terrain, pos: BlockPos, ctx: &MoveContext) -> Cost {
    if ctx.water_policy == WaterPolicy::Forbidden && terrain.partial(pos) && terrain.wet(
        world::shift(pos, 0, -1, 0),
    ) {
        ctx.water_penalty
    } else {
        0
    }
}

pub open spec fn direct_lava_toll(terrain: Terrain, pos: BlockPos, ctx: &MoveContext) -> Cost {
    if ctx.lava_policy is Penalized && moves::touches_lava(terrain, pos) {
        ctx.lava_penalty
    } else {
        0
    }
}

pub open spec fn avoidance(pos: BlockPos, ctx: &MoveContext) -> Cost {
    if ctx.avoid@.contains_key(pos) {
        ctx.avoid@[pos]
    } else {
        0
    }
}

/// Everything charged for standing at `pos`, whatever move arrives there.
pub open spec fn standing_toll(terrain: Terrain, pos: BlockPos, ctx: &MoveContext) -> Cost {
    arith::clamp_u32(
        moves::wall_toll(terrain, pos, ctx.wall_penalty) + direct_lava_toll(terrain, pos, ctx)
            + moves::proximity_toll(
            terrain,
            pos,
            ctx.lava_proximity_radius,
            ctx.lava_proximity_penalty,
        ) + avoidance(pos, ctx) + stone_toll(terrain, pos, ctx) + grazing_toll(terrain, pos, ctx),
    )
}

fn is_taller_beside<W: WorldView + ?Sized>(
    world: &W,
    pos: BlockPos,
    dx: i32,
    dz: i32,
    height: u8,
) -> (r: bool)
    ensures
        r == taller_beside(world.terrain(), pos, dx as int, dz as int, height),
{
    match world.block(offset(pos, dx, 0, dz)) {
        BlockKind::Step(there) => there > height,
        _ => false,
    }
}

fn grazing_step_penalty<W: WorldView + ?Sized>(
    pos: BlockPos,
    world: &W,
    ctx: &MoveContext,
) -> (toll: Cost)
    ensures
        toll == grazing_toll(world.terrain(), pos, ctx),
{
    match world.block(pos) {
        BlockKind::Step(here) => {
            if is_taller_beside(world, pos, -1, -1, here) || is_taller_beside(
                world,
                pos,
                -1,
                0,
                here,
            ) || is_taller_beside(world, pos, -1, 1, here) || is_taller_beside(
                world,
                pos,
                0,
                -1,
                here,
            ) || is_taller_beside(world, pos, 0, 1, here) || is_taller_beside(
                world,
                pos,
                1,
                -1,
                here,
            ) || is_taller_beside(world, pos, 1, 0, here) || is_taller_beside(
                world,
                pos,
                1,
                1,
                here,
            ) {
                ctx.grazing_step_penalty
            } else {
                0
            }
        },
        _ => 0,
    }
}

fn stepping_stone_penalty<W: WorldView + ?Sized>(
    pos: BlockPos,
    world: &W,
    ctx: &MoveContext,
) -> (toll: Cost)
    ensures
        toll == stone_toll(world.terrain(), pos, ctx),
{
    if ctx.water_policy == WaterPolicy::Forbidden && moves::on_partial(world, pos)
        && moves::in_water(world, offset(pos, 0, -1, 0)) {
        ctx.water_penalty
    } else {
        0
    }
}

pub fn terrain_penalty<W: WorldView + ?Sized>(
    pos: BlockPos,
    world: &W,
    ctx: &MoveContext,
) -> (toll: Cost)
    ensures
        toll == standing_toll(world.terrain(), pos, ctx),
{
    let direct: Cost = match ctx.lava_policy {
        LavaPolicy::Penalized => lava_penalty(pos, world, ctx.lava_penalty),
        LavaPolicy::Forbidden { .. } => 0,
    };
    let avoided: Cost = match ctx.avoid.get(pos) {
        Some(cost) => *cost,
        None => 0,
    };
    wall_proximity_penalty(pos, world, ctx.wall_penalty).saturating_add(direct).saturating_add(
        lava_proximity_penalty(
            pos,
            world,
            ctx.lava_proximity_radius,
            ctx.lava_proximity_penalty,
        ),
    ).saturating_add(avoided).saturating_add(
        stepping_stone_penalty(pos, world, ctx),
    ).saturating_add(grazing_step_penalty(pos, world, ctx))
}

/// Lava exposure under the policy; penalized lava carries no risk.
pub open spec fn lava_danger(terrain: Terrain, pos: BlockPos, ctx: &MoveContext) -> Cost {
    match ctx.lava_policy {
        LavaPolicy::Forbidden { clearance } => moves::lava_exposure(terrain, pos, clearance),
        LavaPolicy::Penalized => 0,
    }
}

/// Whether `pos` is water that the policy forbids.
pub open spec fn forbidden_water(terrain: Terrain, pos: BlockPos, ctx: &MoveContext) -> bool {
    ctx.water_policy == WaterPolicy::Forbidden && terrain.wet(pos)
}

/// One where the policy forbids the water at `pos`, otherwise zero.
pub fn water_risk<W: WorldView + ?Sized>(pos: BlockPos, world: &W, ctx: &MoveContext) -> (risk: u8)
    ensures
        risk == (if forbidden_water(world.terrain(), pos, ctx) {
            1int
        } else {
            0
        }),
{
    if ctx.water_policy == WaterPolicy::Forbidden && moves::in_water(world, pos) {
        1
    } else {
        0
    }
}

} // verus!
