//! Which steps walking, hopping, climbing and swimming offer, block by block.
use vstd::prelude::*;

use crate::arith;
use crate::local::moves::{Edge, Move, MoveContext};
use crate::local::rules::climb;
use crate::local::rules::climb::ClimbMove;
use crate::local::rules::offer;
use crate::local::rules::swim;
use crate::local::rules::swim::SwimMove;
use crate::local::rules::walk;
use crate::local::rules::walk::{JumpMove, WalkMove};
use crate::local::world;
use crate::local::world::{BlockKind, Terrain};
use crate::pos::BlockPos;
use crate::types::MoveKind;

verus! {

/// Whether a body is clear of the edge of the coordinate range.
pub open spec fn inland(pos: BlockPos) -> bool {
    &&& i32::MIN + 200 <= pos.x <= i32::MAX - 200
    &&& i32::MIN + 200 <= pos.y <= i32::MAX - 200
    &&& i32::MIN + 200 <= pos.z <= i32::MAX - 200
}

/// What the block at `(x, y, z)` is.
pub open spec fn block(terrain: Terrain, x: int, y: int, z: int) -> BlockKind {
    terrain.kind(BlockPos { x: x as i32, y: y as i32, z: z as i32 })
}

/// Whether the block at `(x, y, z)` is nothing that a body bumps into, wades
/// in or holds on to.
pub open spec fn empty_at(terrain: Terrain, x: int, y: int, z: int) -> bool {
    block(terrain, x, y, z) is Air || block(terrain, x, y, z) is Passable
}

/// Whether two positions are side by side, whatever their heights.
pub open spec fn sideways(a: BlockPos, b: BlockPos) -> bool {
    arith::abs_int(a.x - b.x) + arith::abs_int(a.z - b.z) == 1
}

/// Whether a body stands at `pos` on its feet.
pub open spec fn on_feet(terrain: Terrain, pos: BlockPos) -> bool {
    terrain.stands(pos) && !(terrain.kind(pos) is Water) && !(terrain.kind(pos) is Climbable)
}

/// Whether walking leads from `from` along an edge.
pub open spec fn walkable_step(
    from: BlockPos,
    edge: Edge,
    terrain: Terrain,
    ctx: &MoveContext,
) -> bool {
    let to = edge.to;
    let corner = arith::abs_int(to.x - from.x) == 1 && arith::abs_int(to.z - from.z) == 1;
    &&& !(terrain.kind(from) is Water) && !(terrain.kind(from) is Climbable)
    &&& on_feet(terrain, to)
    &&& edge.kind is Walk
    &&& {
        ||| to.y == from.y && sideways(from, to) && edge.cost == ctx.costs.cardinal_walk
        ||| to.y == from.y && corner && edge.cost == ctx.costs.diagonal_walk && empty_at(
            terrain,
            to.x as int,
            from.y as int,
            from.z as int,
        ) && empty_at(terrain, to.x as int, from.y + 1, from.z as int) && empty_at(
            terrain,
            from.x as int,
            from.y as int,
            to.z as int,
        ) && empty_at(terrain, from.x as int, from.y + 1, to.z as int)
        ||| to.y == from.y + 1 && sideways(from, to) && edge.cost == ctx.costs.step && terrain.kind(
            from,
        ) is Step && empty_at(terrain, from.x as int, from.y + 2, from.z as int)
        ||| to.y == from.y - 1 && sideways(from, to) && edge.cost == ctx.costs.step && (
        terrain.kind(from) is Step || terrain.kind(to) is Step)
    }
}

/// Whether an edge is a level step sideways.
spec fn level_step(from: BlockPos, edge: Edge, terrain: Terrain, ctx: &MoveContext) -> bool {
    &&& edge.to.y == from.y && sideways(from, edge.to) && on_feet(terrain, edge.to)
    &&& edge.kind is Walk && edge.cost == ctx.costs.cardinal_walk
}

/// Whether an edge is a diagonal step between two empty columns.
spec fn corner_step(from: BlockPos, edge: Edge, terrain: Terrain, ctx: &MoveContext) -> bool {
    let to = edge.to;
    &&& to.y == from.y && arith::abs_int(to.x - from.x) == 1 && arith::abs_int(to.z - from.z) == 1
    &&& on_feet(terrain, to)
    &&& edge.kind is Walk && edge.cost == ctx.costs.diagonal_walk
    &&& empty_at(terrain, to.x as int, from.y as int, from.z as int)
    &&& empty_at(terrain, to.x as int, from.y + 1, from.z as int)
    &&& empty_at(terrain, from.x as int, from.y as int, to.z as int)
    &&& empty_at(terrain, from.x as int, from.y + 1, to.z as int)
}

/// Whether an edge steps up or down over a partial block.
spec fn partial_step(from: BlockPos, edge: Edge, terrain: Terrain, ctx: &MoveContext) -> bool {
    let to = edge.to;
    &&& sideways(from, to) && on_feet(terrain, to)
    &&& edge.kind is Walk && edge.cost == ctx.costs.step
    &&& {
        ||| to.y == from.y + 1 && terrain.kind(from) is Step && empty_at(
            terrain,
            from.x as int,
            from.y + 2,
            from.z as int,
        )
        ||| to.y == from.y - 1 && (terrain.kind(from) is Step || terrain.kind(to) is Step)
    }
}

proof fn lemma_level(from: BlockPos, edge: Edge, terrain: Terrain, ctx: &MoveContext)
    requires
        inland(from),
    ensures
        walk::level_walks(from, terrain, ctx).contains(edge) <==> level_step(
            from,
            edge,
            terrain,
            ctx,
        ),
{
    broadcast use offer::lemma_contains_add, offer::lemma_contains_offer;

    if level_step(from, edge, terrain, ctx) {
        let dx = edge.to.x - from.x;
        let dz = edge.to.z - from.z;
        assert(edge.to == world::shift(from, dx, 0, dz));
        assert(walk::level_walk(from, dx, dz, terrain, ctx).contains(edge));
    }
}

proof fn lemma_corner(from: BlockPos, edge: Edge, terrain: Terrain, ctx: &MoveContext)
    requires
        inland(from),
    ensures
        walk::corner_walks(from, terrain, ctx).contains(edge) <==> corner_step(
            from,
            edge,
            terrain,
            ctx,
        ),
{
    broadcast use offer::lemma_contains_add, offer::lemma_contains_offer;

    let dx = edge.to.x - from.x;
    let dz = edge.to.z - from.z;
    if corner_step(from, edge, terrain, ctx) {
        assert(edge.to == world::shift(from, dx, 0, dz));
        lemma_columns(from, dx, dz);
        assert(walk::corner_walk(from, dx, dz, terrain, ctx).contains(edge));
    }
    if walk::corner_walks(from, terrain, ctx).contains(edge) {
        lemma_columns(from, 1, 1);
        lemma_columns(from, -1, -1);
        assert(dx == 1 || dx == -1);
        assert(dz == 1 || dz == -1);
        assert(walk::corner_walk(from, dx, dz, terrain, ctx).contains(edge));
    }
}

/// The columns a diagonal step passes, by their coordinates.
proof fn lemma_columns(from: BlockPos, dx: int, dz: int)
    requires
        -1 <= dx <= 1,
        -1 <= dz <= 1,
        inland(from),
    ensures
        ({
            let beside = world::shift(from, dx, 0, 0);
            let ahead = world::shift(from, 0, 0, dz);
            &&& beside == (BlockPos { x: (from.x + dx) as i32, ..from })
            &&& ahead == (BlockPos { z: (from.z + dz) as i32, ..from })
            &&& world::shift(beside, 0, 1, 0) == (BlockPos { y: (from.y + 1) as i32, ..beside })
            &&& world::shift(ahead, 0, 1, 0) == (BlockPos { y: (from.y + 1) as i32, ..ahead })
        }),
{
}

proof fn lemma_partial(from: BlockPos, edge: Edge, terrain: Terrain, ctx: &MoveContext)
    requires
        inland(from),
    ensures
        walk::step_walks(from, terrain, ctx).contains(edge) <==> partial_step(
            from,
            edge,
            terrain,
            ctx,
        ),
{
    broadcast use offer::lemma_contains_add, offer::lemma_contains_offer;

    if partial_step(from, edge, terrain, ctx) {
        let dx = edge.to.x - from.x;
        let dy = edge.to.y - from.y;
        let dz = edge.to.z - from.z;
        assert(edge.to == world::shift(from, dx, dy, dz));
        assert(walk::step_walk(from, dx, dy, dz, terrain, ctx).contains(edge));
        assert(walk::step_pair(from, dx, dz, terrain, ctx).contains(edge));
    }
}

/// Walking offers exactly these steps: one block sideways on the level; one
/// diagonally where both corners have room for the whole body; one sideways and
/// up from a partial block with head room; and one sideways and down from or
/// onto a partial block. It starts and ends on the feet.
pub proof fn walking_takes_these_steps(
    from: BlockPos,
    edge: Edge,
    terrain: Terrain,
    ctx: &MoveContext,
)
    requires
        inland(from),
    ensures
        WalkMove.offers(from, terrain, ctx).contains(edge) <==> walkable_step(
            from,
            edge,
            terrain,
            ctx,
        ),
{
    let level = walk::level_walks(from, terrain, ctx);
    let corner = walk::corner_walks(from, terrain, ctx);
    let partial = walk::step_walks(from, terrain, ctx);
    lemma_level(from, edge, terrain, ctx);
    lemma_corner(from, edge, terrain, ctx);
    lemma_partial(from, edge, terrain, ctx);
    offer::lemma_contains_add(level, corner, edge);
    offer::lemma_contains_add(level + corner, partial, edge);
    offer::lemma_contains_nothing(edge);
}

proof fn lemma_one_corner(
    from: BlockPos,
    dx: int,
    dz: int,
    edge: Edge,
    terrain: Terrain,
    ctx: &MoveContext,
)
    requires
        walk::corner_walk(from, dx, dz, terrain, ctx).contains(edge),
        edge.to.x != from.x,
        edge.to.z != from.z,
        -1 <= dx <= 1,
        -1 <= dz <= 1,
    ensures
        edge.to.y == from.y,
        empty_at(terrain, edge.to.x as int, from.y as int, from.z as int),
        empty_at(terrain, from.x as int, from.y as int, edge.to.z as int),
        from.y < i32::MAX ==> empty_at(terrain, edge.to.x as int, from.y + 1, from.z as int),
        from.y < i32::MAX ==> empty_at(terrain, from.x as int, from.y + 1, edge.to.z as int),
{
    broadcast use offer::lemma_contains_offer;

    assert(edge.to == world::shift(from, dx, 0, dz));
    let beside = world::shift(from, dx, 0, 0);
    let ahead = world::shift(from, 0, 0, dz);
    assert(beside == (BlockPos { x: edge.to.x, ..from }));
    assert(ahead == (BlockPos { z: edge.to.z, ..from }));
    if from.y < i32::MAX {
        assert(world::shift(beside, 0, 1, 0) == (BlockPos { y: (from.y + 1) as i32, ..beside }));
        assert(world::shift(ahead, 0, 1, 0) == (BlockPos { y: (from.y + 1) as i32, ..ahead }));
    }
}

/// Level and partial steps change only one of the two horizontal coordinates.
proof fn lemma_straight(from: BlockPos, edge: Edge, terrain: Terrain, ctx: &MoveContext)
    requires
        edge.to.x != from.x,
        edge.to.z != from.z,
    ensures
        !walk::level_walks(from, terrain, ctx).contains(edge),
        !walk::step_walks(from, terrain, ctx).contains(edge),
{
    broadcast use offer::lemma_contains_add, offer::lemma_contains_offer;

    assert(!walk::step_pair(from, 1, 0, terrain, ctx).contains(edge));
    assert(!walk::step_pair(from, -1, 0, terrain, ctx).contains(edge));
    assert(!walk::step_pair(from, 0, 1, terrain, ctx).contains(edge));
    assert(!walk::step_pair(from, 0, -1, terrain, ctx).contains(edge));
}

/// A diagonal step never cuts a corner: wherever one is offered, the two
/// columns it passes are empty at the feet and at the head.
pub proof fn diagonals_never_cut_corners(
    from: BlockPos,
    i: int,
    terrain: Terrain,
    ctx: &MoveContext,
)
    requires
        0 <= i < WalkMove.offers(from, terrain, ctx).len(),
        WalkMove.offers(from, terrain, ctx)[i].to.x != from.x,
        WalkMove.offers(from, terrain, ctx)[i].to.z != from.z,
    ensures
        ({
            let to = WalkMove.offers(from, terrain, ctx)[i].to;
            &&& to.y == from.y
            &&& empty_at(terrain, to.x as int, from.y as int, from.z as int)
            &&& empty_at(terrain, from.x as int, from.y as int, to.z as int)
            &&& from.y < i32::MAX ==> empty_at(terrain, to.x as int, from.y + 1, from.z as int)
            &&& from.y < i32::MAX ==> empty_at(terrain, from.x as int, from.y + 1, to.z as int)
        }),
{
    let offers = WalkMove.offers(from, terrain, ctx);
    let edge = offers[i];
    assert(offers.contains(edge));
    let level = walk::level_walks(from, terrain, ctx);
    let corner = walk::corner_walks(from, terrain, ctx);
    let partial = walk::step_walks(from, terrain, ctx);
    offer::lemma_contains_add(level, corner, edge);
    offer::lemma_contains_add(level + corner, partial, edge);
    lemma_straight(from, edge, terrain, ctx);
    let a = walk::corner_walk(from, 1, 1, terrain, ctx);
    let b = walk::corner_walk(from, 1, -1, terrain, ctx);
    let c = walk::corner_walk(from, -1, 1, terrain, ctx);
    let d = walk::corner_walk(from, -1, -1, terrain, ctx);
    offer::lemma_contains_add(a, b, edge);
    offer::lemma_contains_add(a + b, c, edge);
    offer::lemma_contains_add(a + b + c, d, edge);
    if a.contains(edge) {
        lemma_one_corner(from, 1, 1, edge, terrain, ctx);
    } else if b.contains(edge) {
        lemma_one_corner(from, 1, -1, edge, terrain, ctx);
    } else if c.contains(edge) {
        lemma_one_corner(from, -1, 1, edge, terrain, ctx);
    } else {
        lemma_one_corner(from, -1, -1, edge, terrain, ctx);
    }
}

/// A level step is walked back the same way at the same cost.
pub proof fn level_steps_are_walked_back(
    from: BlockPos,
    edge: Edge,
    terrain: Terrain,
    ctx: &MoveContext,
)
    requires
        inland(from),
        inland(edge.to),
        WalkMove.offers(from, terrain, ctx).contains(edge),
        edge.to.y == from.y,
        terrain.stands(from),
    ensures
        WalkMove.offers(edge.to, terrain, ctx).contains(Edge { to: from, ..edge }),
{
    walking_takes_these_steps(from, edge, terrain, ctx);
    walking_takes_these_steps(edge.to, Edge { to: from, ..edge }, terrain, ctx);
}

/// Hopping offers exactly the blocks beside the body and one up that it can
/// stand on, from its feet and with head room over the takeoff. A partial block
/// is stepped onto at the cost of a step.
pub proof fn hops_reach_these_blocks(
    from: BlockPos,
    edge: Edge,
    terrain: Terrain,
    ctx: &MoveContext,
)
    requires
        inland(from),
    ensures
        JumpMove.offers(from, terrain, ctx).contains(edge) <==> {
            &&& !(terrain.kind(from) is Water) && !(terrain.kind(from) is Climbable)
            &&& empty_at(terrain, from.x as int, from.y + 2, from.z as int)
            &&& edge.kind is Jump
            &&& sideways(from, edge.to) && edge.to.y == from.y + 1
            &&& on_feet(terrain, edge.to)
            &&& terrain.kind(edge.to) is Step ==> edge.cost == ctx.costs.step
            &&& !(terrain.kind(edge.to) is Step) ==> edge.cost == ctx.costs.jump
        },
{
    broadcast use
        offer::lemma_contains_add,
        offer::lemma_contains_offer,
        offer::lemma_contains_nothing,
    ;

    let dx = edge.to.x - from.x;
    let dz = edge.to.z - from.z;
    if sideways(from, edge.to) && edge.to.y == from.y + 1 {
        assert(edge.to == world::shift(from, dx, 1, dz));
        assert(walk::hop(from, dx, dz, terrain, ctx).contains(edge) ==> walk::jump_offers(
            from,
            terrain,
            ctx,
        ).contains(edge) || walk::jump_offers(from, terrain, ctx) =~= Seq::empty());
    }
}

/// Whether climbing leads from `from` along an edge.
pub open spec fn climbable_step(
    from: BlockPos,
    edge: Edge,
    terrain: Terrain,
    ctx: &MoveContext,
) -> bool {
    let to = edge.to;
    let up = to.y == from.y + 1;
    &&& edge.kind is Climb
    &&& if terrain.kind(from) is Climbable {
        // Along the ladder, or off it.
        &&& edge.cost == ctx.costs.climb
        &&& {
            ||| to.x == from.x && to.z == from.z && (up || to.y == from.y - 1) && terrain.kind(
                to,
            ) is Climbable && terrain.stands(to)
            ||| sideways(from, to) && on_feet(terrain, to) && (to.y == from.y || up && empty_at(
                terrain,
                from.x as int,
                from.y + 2,
                from.z as int,
            ))
        }
    } else {
        // Onto the ladder.
        &&& !(terrain.kind(from) is Water)
        &&& sideways(from, to) && (to.y == from.y || up)
        &&& terrain.kind(to) is Climbable && terrain.stands(to)
        &&& to.y == from.y ==> edge.cost == ctx.costs.climb
        &&& up ==> edge.cost == arith::min_int(
            2 * ctx.costs.climb + ctx.costs.jump,
            u32::MAX as int,
        )
    }
}

proof fn lemma_grabs(from: BlockPos, edge: Edge, terrain: Terrain, ctx: &MoveContext)
    requires
        inland(from),
        !(terrain.kind(from) is Climbable),
    ensures
        ClimbMove.offers(from, terrain, ctx).contains(edge) <==> climbable_step(
            from,
            edge,
            terrain,
            ctx,
        ),
{
    broadcast use
        offer::lemma_contains_add,
        offer::lemma_contains_offer,
        offer::lemma_contains_nothing,
    ;

    if climbable_step(from, edge, terrain, ctx) {
        let dx = edge.to.x - from.x;
        let dy = edge.to.y - from.y;
        let dz = edge.to.z - from.z;
        assert(edge.to == world::shift(from, dx, dy, dz));
        assert(climb::grab(from, dx, dy, dz, terrain, ctx).contains(edge));
        assert(climb::grab_pair(from, dx, dz, terrain, ctx).contains(edge));
    }
}

/// Whether an edge gets off a ladder to the side.
spec fn off_step(from: BlockPos, edge: Edge, terrain: Terrain, ctx: &MoveContext) -> bool {
    let to = edge.to;
    &&& edge.kind is Climb && edge.cost == ctx.costs.climb
    &&& sideways(from, to) && on_feet(terrain, to)
    &&& to.y == from.y || to.y == from.y + 1 && empty_at(
        terrain,
        from.x as int,
        from.y + 2,
        from.z as int,
    )
}

spec fn dismounts(from: BlockPos, terrain: Terrain, ctx: &MoveContext) -> Seq<Edge> {
    offer::in_turn(
        climb::dismount_pair(from, 1, 0, terrain, ctx),
        climb::dismount_pair(from, -1, 0, terrain, ctx),
        climb::dismount_pair(from, 0, 1, terrain, ctx),
        climb::dismount_pair(from, 0, -1, terrain, ctx),
    )
}

proof fn lemma_dismounts(from: BlockPos, edge: Edge, terrain: Terrain, ctx: &MoveContext)
    requires
        inland(from),
    ensures
        dismounts(from, terrain, ctx).contains(edge) <==> off_step(from, edge, terrain, ctx),
{
    broadcast use offer::lemma_contains_add, offer::lemma_contains_offer;

    assert(world::shift(from, 0, 2, 0) == (BlockPos { y: (from.y + 2) as i32, ..from }));
    if off_step(from, edge, terrain, ctx) {
        let dx = edge.to.x - from.x;
        let dy = edge.to.y - from.y;
        let dz = edge.to.z - from.z;
        assert(edge.to == world::shift(from, dx, dy, dz));
        assert(climb::dismount(from, dx, dy, dz, terrain, ctx).contains(edge));
        assert(climb::dismount_pair(from, dx, dz, terrain, ctx).contains(edge));
    }
}

proof fn lemma_rungs(from: BlockPos, edge: Edge, terrain: Terrain, ctx: &MoveContext)
    requires
        inland(from),
    ensures
        (climb::rung(from, 1, terrain, ctx) + climb::rung(from, -1, terrain, ctx)).contains(edge)
            <==> {
            let to = edge.to;
            &&& edge.kind is Climb && edge.cost == ctx.costs.climb
            &&& to.x == from.x && to.z == from.z && (to.y == from.y + 1 || to.y == from.y - 1)
            &&& terrain.kind(to) is Climbable && terrain.stands(to)
        },
{
    broadcast use offer::lemma_contains_add, offer::lemma_contains_offer;

    let dy = edge.to.y - from.y;
    if edge.to.x == from.x && edge.to.z == from.z && (dy == 1 || dy == -1) {
        assert(edge.to == world::shift(from, 0, dy, 0));
    }
}

/// Climbing offers exactly these steps: onto a ladder beside the body or one
/// above that; up and down along a ladder; and off it to the side, level or one
/// up with head room.
pub proof fn climbing_takes_these_steps(
    from: BlockPos,
    edge: Edge,
    terrain: Terrain,
    ctx: &MoveContext,
)
    requires
        inland(from),
    ensures
        ClimbMove.offers(from, terrain, ctx).contains(edge) <==> climbable_step(
            from,
            edge,
            terrain,
            ctx,
        ),
{
    if terrain.kind(from) is Climbable {
        let rungs = climb::rung(from, 1, terrain, ctx) + climb::rung(from, -1, terrain, ctx);
        lemma_rungs(from, edge, terrain, ctx);
        lemma_dismounts(from, edge, terrain, ctx);
        offer::lemma_contains_add(rungs, dismounts(from, terrain, ctx), edge);
        assert(ClimbMove.offers(from, terrain, ctx) == rungs + dismounts(from, terrain, ctx));
    } else {
        lemma_grabs(from, edge, terrain, ctx);
    }
}

/// From a ladder block, the next one above and the next one below are offered
/// at the cost of a rung wherever they are ladder and hold the body.
pub proof fn ladders_are_climbed_both_ways(from: BlockPos, terrain: Terrain, ctx: &MoveContext)
    requires
        terrain.kind(from) is Climbable,
    ensures
        from.y < i32::MAX && block(terrain, from.x as int, from.y + 1, from.z as int) is Climbable
            && terrain.stands(BlockPos { y: (from.y + 1) as i32, ..from }) ==> ClimbMove.offers(
            from,
            terrain,
            ctx,
        ).contains(
            Edge {
                to: BlockPos { y: (from.y + 1) as i32, ..from },
                kind: MoveKind::Climb,
                cost: ctx.costs.climb,
            },
        ),
        from.y > i32::MIN && block(terrain, from.x as int, from.y - 1, from.z as int) is Climbable
            && terrain.stands(BlockPos { y: (from.y - 1) as i32, ..from }) ==> ClimbMove.offers(
            from,
            terrain,
            ctx,
        ).contains(
            Edge {
                to: BlockPos { y: (from.y - 1) as i32, ..from },
                kind: MoveKind::Climb,
                cost: ctx.costs.climb,
            },
        ),
{
    broadcast use
        offer::lemma_contains_add,
        offer::lemma_contains_offer,
        offer::lemma_contains_nothing,
    ;

    let up = Edge {
        to: BlockPos { y: (from.y + 1) as i32, ..from },
        kind: MoveKind::Climb,
        cost: ctx.costs.climb,
    };
    let down = Edge {
        to: BlockPos { y: (from.y - 1) as i32, ..from },
        kind: MoveKind::Climb,
        cost: ctx.costs.climb,
    };
    if from.y < i32::MAX {
        assert(up.to == world::shift(from, 0, 1, 0));
        assert(terrain.climbable(up.to) && terrain.stands(up.to) ==> climb::rung(
            from,
            1,
            terrain,
            ctx,
        ).contains(up));
    }
    if from.y > i32::MIN {
        assert(down.to == world::shift(from, 0, -1, 0));
        assert(terrain.climbable(down.to) && terrain.stands(down.to) ==> climb::rung(
            from,
            -1,
            terrain,
            ctx,
        ).contains(down));
    }
}

/// A rung that is climbed one way is climbed back the other, at the same cost.
pub proof fn rungs_are_climbed_back(
    from: BlockPos,
    edge: Edge,
    terrain: Terrain,
    ctx: &MoveContext,
)
    requires
        ClimbMove.offers(from, terrain, ctx).contains(edge),
        edge.to.x == from.x,
        edge.to.z == from.z,
        edge.to.y != from.y,
        terrain.kind(from) is Climbable,
        terrain.stands(from),
        inland(from),
    ensures
        ClimbMove.offers(edge.to, terrain, ctx).contains(Edge { to: from, ..edge }),
{
    climbing_takes_these_steps(from, edge, terrain, ctx);
    ladders_are_climbed_both_ways(edge.to, terrain, ctx);
}

/// Whether swimming leads from `from` along an edge.
pub open spec fn swimmable_step(
    from: BlockPos,
    edge: Edge,
    terrain: Terrain,
    ctx: &MoveContext,
) -> bool {
    let to = edge.to;
    let wet = terrain.kind(to) is Water;
    let stroke = arith::min_int(ctx.costs.swim + ctx.water_penalty, u32::MAX as int);
    let above = block(terrain, from.x as int, from.y + 1, from.z as int);
    let over = block(terrain, from.x as int, from.y + 2, from.z as int);
    &&& edge.kind is Swim
    &&& terrain.stands(to)
    &&& !(terrain.kind(from) is Climbable)
    &&& if terrain.kind(from) is Water {
        ||| sideways(from, to) && to.y == from.y && edge.cost == (if wet {
            stroke
        } else {
            ctx.costs.swim as int
        })
        ||| to.x == from.x && to.z == from.z && (to.y == from.y + 1 || to.y == from.y - 1) && wet
            && edge.cost == stroke
        ||| sideways(from, to) && to.y == from.y + 1 && on_feet(terrain, to) && edge.cost
            == ctx.costs.swim_exit && (above is Air || above is Passable || above is Water) && (
        over is Air || over is Passable || over is Water)
    } else {
        &&& !(ctx.water_policy is Forbidden)
        &&& wet && sideways(from, to) && (to.y == from.y || to.y == from.y - 1)
        &&& edge.cost == stroke
    }
}

/// Swimming offers exactly these steps: from the shore into water, level or one
/// down, unless water is forbidden; from water one block to any side, up or
/// down, where the body holds; and out onto a bank one block up with room to
/// rise. Ending in water costs the toll for water.
pub proof fn swimming_takes_these_steps(
    from: BlockPos,
    edge: Edge,
    terrain: Terrain,
    ctx: &MoveContext,
)
    requires
        inland(from),
    ensures
        SwimMove.offers(from, terrain, ctx).contains(edge) <==> swimmable_step(
            from,
            edge,
            terrain,
            ctx,
        ),
{
    broadcast use
        offer::lemma_contains_add,
        offer::lemma_contains_offer,
        offer::lemma_contains_nothing,
    ;

    let dx = edge.to.x - from.x;
    let dy = edge.to.y - from.y;
    let dz = edge.to.z - from.z;
    if swimmable_step(from, edge, terrain, ctx) {
        assert(edge.to == world::shift(from, dx, dy, dz));
        if !(terrain.kind(from) is Water) {
            assert(swim::wade(from, dx, dy, dz, terrain, ctx).contains(edge));
            assert(swim::wade_pair(from, dx, dz, terrain, ctx).contains(edge));
        } else if dx == 0 && dz == 0 {
            assert(swim::dive(from, dy, terrain, ctx).contains(edge));
        } else if dy == 0 {
            assert(swim::stroke(from, dx, dz, terrain, ctx).contains(edge));
        } else {
            assert(swim::bank_exit(from, dx, dz, terrain, ctx).contains(edge));
            assert(swim::bank_exits(from, terrain, ctx).contains(edge));
        }
    }
}

/// Under a policy that forbids water nothing steps into it from dry land, and a
/// body that is in it still gets out.
pub proof fn forbidden_water_is_only_left(
    from: BlockPos,
    edge: Edge,
    terrain: Terrain,
    ctx: &MoveContext,
)
    requires
        inland(from),
        ctx.water_policy is Forbidden,
    ensures
        !(terrain.kind(from) is Water) ==> !SwimMove.offers(from, terrain, ctx).contains(edge),
        terrain.kind(from) is Water && edge.to.y == from.y && sideways(from, edge.to)
            && terrain.stands(edge.to) && !(terrain.kind(edge.to) is Water) && edge.kind is Swim
            && edge.cost == ctx.costs.swim ==> SwimMove.offers(from, terrain, ctx).contains(edge),
{
    swimming_takes_these_steps(from, edge, terrain, ctx);
}

} // verus!
