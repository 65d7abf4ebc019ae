//! What the description of a move says about it.
use vstd::prelude::*;

use crate::adaptive::features::PrimitiveId;
use crate::arith;
use crate::local::rules::step_laws;
use crate::local::terrain_laws;
use crate::local::world;
use crate::local::world::Terrain;
use crate::local::moves::MoveContext;
use crate::planning;
use crate::planning::MotionStep;
use crate::pos::BlockPos;
use crate::types::{Cost, MoveKind, PathNode};

verus! {

/// How far a move drops the body.
pub open spec fn sinks(from: BlockPos, to: BlockPos) -> int {
    if from.y > to.y {
        from.y - to.y
    } else {
        0
    }
}

/// The parts of a generated cost add up to it. Only a stroke into water pays
/// the toll for water, only a fall or a leap onto dry ground pays for harm, by
/// the blocks beyond the third, and the rest is time.
pub proof fn costs_split_into_toll_harm_and_time(
    primitive: PrimitiveId,
    from: BlockPos,
    to: BlockPos,
    terrain: Terrain,
    ctx: &MoveContext,
    cost: Cost,
)
    requires
        sinks(from, to) <= 1_000,
    ensures
        ({
            let parts = planning::split_cost(primitive, from, to, terrain, ctx, cost);
            let wet = terrain.kind(to) is Water;
            let swims = primitive.0 == PrimitiveId::SWIM;
            let drops = primitive.0 == PrimitiveId::FALL || primitive.0 == PrimitiveId::PARKOUR;
            let harm = ctx.fall_damage_penalty * (if sinks(from, to) > 3 {
                sinks(from, to) - 3
            } else {
                0
            });
            &&& parts.time + parts.safety + parts.damage == cost
            &&& parts.reliability == 0 && parts.desync == 0 && parts.resource == 0
            &&& parts.safety == (if swims && wet {
                arith::min_int(ctx.water_penalty as int, cost as int)
            } else {
                0
            })
            &&& parts.damage == (if drops && !wet {
                arith::min_int(arith::min_int(harm, u32::MAX as int), cost as int)
            } else {
                0
            })
        }),
{
    let h = planning::hurtful_drop(from, to);
    assert(ctx.fall_damage_penalty * h >= 0) by (nonlinear_arith)
        requires
            h >= 0,
    ;
}

/// A move takes as long as its primitive: steps and jumps a fixed time, falls
/// two ticks more for every block, leaps six for every block, ladders fifteen
/// for every rung, and the grab of a rung overhead longer than any of them.
pub proof fn moves_take_their_time(
    kind: MoveKind,
    primitive: PrimitiveId,
    from: BlockPos,
    to: BlockPos,
    terrain: Terrain,
)
    requires
        sinks(from, to) <= 1_000_000,
        sinks(to, from) <= 1_000_000,
    ensures
        ({
            let ticks = planning::ticks_for(kind, primitive, from, to, terrain) as int;
            let ladder = terrain.kind(to) is Climbable && !(terrain.kind(from) is Climbable);
            let beside = from.x != to.x || from.z != to.z;
            &&& primitive.0 == PrimitiveId::WALK_CARDINAL ==> ticks == 5
            &&& primitive.0 == PrimitiveId::WALK_DIAGONAL ==> ticks == 7
            &&& primitive.0 == PrimitiveId::STEP ==> ticks == 7
            &&& primitive.0 == PrimitiveId::JUMP ==> ticks == 11
            &&& primitive.0 == PrimitiveId::SWIM_EXIT ==> ticks == 20
            &&& primitive.0 == PrimitiveId::SWIM ==> ticks == 10
            &&& primitive.0 == PrimitiveId::FALL ==> ticks == 4 + 2 * sinks(from, to)
            &&& primitive.0 == PrimitiveId::PARKOUR && kind is Parkour && kind->blocks > 0 ==> ticks
                == 6 * kind->blocks
            &&& primitive.0 == PrimitiveId::CLIMB && ladder && to.y > from.y && beside ==> ticks
                == 41
            &&& primitive.0 == PrimitiveId::CLIMB && terrain.kind(from) is Climbable && from.y
                != to.y ==> ticks == 15 * (sinks(from, to) + sinks(to, from))
            &&& primitive.0 == PrimitiveId::CLIMB && from.y == to.y ==> ticks == 15
        }),
{
}

/// The features of a move are what is seen of it: how far it goes sideways and
/// up or down, what it ends on, and how many sides are obstructed there.
pub proof fn features_describe_the_move(
    primitive: PrimitiveId,
    from: BlockPos,
    to: BlockPos,
    kind: MoveKind,
    terrain: Terrain,
)
    requires
        step_laws::inland(to),
    ensures
        ({
            let seen = planning::generated_features(primitive, from, to, kind, terrain);
            let dx = arith::abs_int(from.x - to.x);
            let dz = arith::abs_int(from.z - to.z);
            let far = if dx >= dz {
                dx
            } else {
                dz
            };
            let feet = terrain.kind(to);
            let floor = step_laws::block(terrain, to.x as int, to.y - 1, to.z as int);
            let over = step_laws::block(terrain, to.x as int, to.y + 2, to.z as int);
            let low = !(over is Air) && !(over is Passable) && !(over is Water);
            let wades = primitive.0 == PrimitiveId::SWIM && !(terrain.kind(from) is Water)
                && feet is Water;
            &&& !(kind is Parkour) && far <= 16 ==> seen.horizontal_blocks == far
            &&& !(kind is Parkour) && far > 16 ==> seen.horizontal_blocks == 16
            &&& kind is Parkour && kind->blocks <= 16 ==> seen.horizontal_blocks == kind->blocks
            &&& -128 <= to.y - from.y <= 127 ==> seen.vertical_blocks == to.y - from.y
            &&& feet is Step ==> seen.terrain is PartialBlock
            &&& feet is Water ==> seen.terrain is Water
            &&& feet is Climbable ==> seen.terrain is Climbable
            &&& (feet is Air || feet is Passable) && (floor is Solid || floor is Fence)
                ==> seen.terrain is FullBlock
            &&& (feet is Air || feet is Passable) && floor is Step ==> seen.terrain is PartialBlock
            &&& seen.flags == (if low {
                2int
            } else {
                0
            }) + (if partial_around(terrain, to) {
                4int
            } else {
                0
            }) + (if wades {
                8int
            } else {
                0
            })
            &&& seen.adjacent_walls == obstructed_sides(terrain, to)
        }),
{
    assert(world::shift(to, 0, -1, 0) == (BlockPos { y: (to.y - 1) as i32, ..to }));
    assert(world::shift(to, 0, 2, 0) == (BlockPos { y: (to.y + 2) as i32, ..to }));
    lemma_around(terrain, to);
    lemma_side(terrain, to, 1, 0);
    lemma_side(terrain, to, -1, 0);
    lemma_side(terrain, to, 0, 1);
    lemma_side(terrain, to, 0, -1);
}

/// Whether something in a column is in the way of the feet or the head.
pub open spec fn obstructed(terrain: Terrain, pos: BlockPos, dx: int, dz: int) -> bool {
    let feet = step_laws::block(terrain, pos.x + dx, pos.y as int, pos.z + dz);
    let head = step_laws::block(terrain, pos.x + dx, pos.y + 1, pos.z + dz);
    !(feet is Air || feet is Passable || feet is Water) || !(head is Air || head is Passable
        || head is Water)
}

/// The sides of a body with something in the way.
pub open spec fn obstructed_sides(terrain: Terrain, pos: BlockPos) -> int {
    terrain_laws::count_if(obstructed(terrain, pos, 1, 0)) + terrain_laws::count_if(
        obstructed(terrain, pos, -1, 0),
    ) + terrain_laws::count_if(obstructed(terrain, pos, 0, 1)) + terrain_laws::count_if(
        obstructed(terrain, pos, 0, -1),
    )
}

proof fn lemma_side(terrain: Terrain, pos: BlockPos, dx: int, dz: int)
    requires
        step_laws::inland(pos),
        terrain_laws::no_further(dx, dz, 1),
    ensures
        planning::crowded(terrain, pos, dx, dz) <==> obstructed(terrain, pos, dx, dz),
{
    assert(world::shift(pos, dx, 0, dz) == (BlockPos {
        x: (pos.x + dx) as i32,
        y: pos.y,
        z: (pos.z + dz) as i32,
    }));
    assert(world::shift(pos, dx, 1, dz) == (BlockPos {
        x: (pos.x + dx) as i32,
        y: (pos.y + 1) as i32,
        z: (pos.z + dz) as i32,
    }));
}

/// Whether any of the eight columns around a body holds a partial block.
pub open spec fn partial_around(terrain: Terrain, pos: BlockPos) -> bool {
    exists|dx: int, dz: int|
        terrain_laws::no_further(dx, dz, 1) && !(dx == 0 && dz == 0)
            && #[trigger] step_laws::block(terrain, pos.x + dx, pos.y as int, pos.z + dz) is Step
}

proof fn lemma_beside(terrain: Terrain, pos: BlockPos, dx: int, dz: int)
    requires
        step_laws::inland(pos),
        terrain_laws::no_further(dx, dz, 1),
        !(dx == 0 && dz == 0),
    ensures
        terrain.partial(world::shift(pos, dx, 0, dz)) ==> partial_around(terrain, pos),
        terrain.partial(world::shift(pos, dx, 0, dz)) <==> step_laws::block(
            terrain,
            pos.x + dx,
            pos.y as int,
            pos.z + dz,
        ) is Step,
{
    assert(world::shift(pos, dx, 0, dz) == (BlockPos {
        x: (pos.x + dx) as i32,
        y: pos.y,
        z: (pos.z + dz) as i32,
    }));
}

proof fn lemma_around(terrain: Terrain, pos: BlockPos)
    requires
        step_laws::inland(pos),
    ensures
        planning::beside_partial(terrain, pos) <==> partial_around(terrain, pos),
{
    lemma_beside(terrain, pos, -1, -1);
    lemma_beside(terrain, pos, -1, 0);
    lemma_beside(terrain, pos, -1, 1);
    lemma_beside(terrain, pos, 0, -1);
    lemma_beside(terrain, pos, 0, 1);
    lemma_beside(terrain, pos, 1, -1);
    lemma_beside(terrain, pos, 1, 0);
    lemma_beside(terrain, pos, 1, 1);
    if partial_around(terrain, pos) {
        let (dx, dz) = choose|dx: int, dz: int|
            terrain_laws::no_further(dx, dz, 1) && !(dx == 0 && dz == 0)
                && #[trigger] step_laws::block(
                terrain,
                pos.x + dx,
                pos.y as int,
                pos.z + dz,
            ) is Step;
        lemma_beside(terrain, pos, dx, dz);
    }
}

/// A move stands for the primitive of its kind: a walk by whether it changes
/// height or goes diagonally, and a stroke by whether it climbs out of water.
pub proof fn moves_stand_for_their_primitive(
    from: BlockPos,
    to: BlockPos,
    kind: MoveKind,
    terrain: Terrain,
)
    ensures
        ({
            let id = planning::primitive_of(from, to, kind, terrain).0;
            let diagonal = from.x != to.x && from.z != to.z;
            let leaves = terrain.kind(from) is Water && !(terrain.kind(to) is Water) && to.y
                > from.y;
            &&& kind is Walk && from.y != to.y ==> id == PrimitiveId::STEP
            &&& kind is Walk && from.y == to.y && diagonal ==> id == PrimitiveId::WALK_DIAGONAL
            &&& kind is Walk && from.y == to.y && !diagonal ==> id == PrimitiveId::WALK_CARDINAL
            &&& kind is Jump ==> id == PrimitiveId::JUMP
            &&& kind is Fall ==> id == PrimitiveId::FALL
            &&& kind is Parkour ==> id == PrimitiveId::PARKOUR
            &&& kind is Climb ==> id == PrimitiveId::CLIMB
            &&& kind is Swim && leaves ==> id == PrimitiveId::SWIM_EXIT
            &&& kind is Swim && !leaves ==> id == PrimitiveId::SWIM
        }),
{
}

/// The steps of a plan join its nodes one after the other, and there is one for
/// every two that follow each other.
pub proof fn steps_join_their_nodes(nodes: Seq<PathNode>, steps: Seq<MotionStep>, i: int)
    requires
        planning::steps_match(nodes, steps),
        nodes.len() <= u32::MAX,
        0 <= i < nodes.len() - 1,
    ensures
        steps.len() + 1 == nodes.len(),
        steps[i].edge_index == i,
        steps[i].from == nodes[i].pos,
        steps[i].to == nodes[i + 1].pos,
        steps[i].kind == nodes[i + 1].reached_by,
        i + 1 < steps.len() ==> steps[i + 1].from == steps[i].to,
{
    assert(planning::step_matches(nodes, steps[i], i));
    if i + 1 < steps.len() {
        assert(planning::step_matches(nodes, steps[i + 1], i + 1));
    }
}

} // verus!
