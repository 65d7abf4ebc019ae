//! Where a body holds, and what standing somewhere costs.
use vstd::prelude::*;

use crate::arith;
use crate::local::moves;
use crate::local::moves::{LavaPolicy, MoveContext};
use crate::local::rules::step_laws;
use crate::local::tolls;
use crate::local::world;
use crate::local::world::{BlockFacts, BlockKind, Terrain};
use crate::pos::BlockPos;
use crate::text;
use crate::types::Cost;

verus! {

/// Whether a body part can be in a block at all.
pub open spec fn has_room(kind: BlockKind) -> bool {
    !(kind is Solid) && !(kind is Fence) && !(kind is Step) && !(kind is Unloaded)
}

/// A body never holds inside a wall or where nothing is known, nor without room
/// for its head.
pub proof fn bodies_hold_only_where_they_fit(
    feet: BlockKind,
    below: BlockKind,
    above: BlockKind,
    two_above: BlockKind,
)
    requires
        world::body_holds(feet, below, above, two_above),
    ensures
        !(feet is Solid) && !(feet is Fence) && !(feet is Unloaded),
        has_room(above),
        feet is Step ==> (above is Air || above is Passable) && (two_above is Air
            || two_above is Passable),
{
}

/// Out of water and off ladders a body holds only on a full block, or on the
/// lava it is in: neither a fence, a partial block, a ladder, water, air nor the
/// unknown carries it. In water and on a ladder nothing under it matters, and
/// neither does it inside a partial block.
pub proof fn bodies_need_a_floor(
    feet: BlockKind,
    below: BlockKind,
    above: BlockKind,
    two_above: BlockKind,
    other: BlockKind,
)
    ensures
        feet is Air || feet is Passable || feet is Lava ==> (world::body_holds(
            feet,
            below,
            above,
            two_above,
        ) <==> has_room(above) && (below is Solid || below is Lava)),
        feet is Water || feet is Climbable ==> (world::body_holds(feet, below, above, two_above)
            <==> has_room(above)),
        feet is Step || feet is Water || feet is Climbable ==> world::body_holds(
            feet,
            below,
            above,
            two_above,
        ) == world::body_holds(feet, other, above, two_above),
        feet is Step && (above is Air || above is Passable) && (two_above is Air
            || two_above is Passable) ==> world::body_holds(feet, below, above, two_above),
        !(feet is Step) ==> world::body_holds(feet, below, above, two_above) == world::body_holds(
            feet,
            below,
            above,
            other,
        ),
{
}

/// The standing rule reads the block at the feet, the one below and the two
/// above, and no others.
pub proof fn standing_is_decided_by_four_blocks(
    kinds: spec_fn(BlockPos) -> BlockKind,
    pos: BlockPos,
)
    requires
        i32::MIN < pos.y < i32::MAX - 1,
    ensures
        world::stands_by_blocks(kinds, pos) == world::body_holds(
            kinds(pos),
            kinds(BlockPos { y: (pos.y - 1) as i32, ..pos }),
            kinds(BlockPos { y: (pos.y + 1) as i32, ..pos }),
            kinds(BlockPos { y: (pos.y + 2) as i32, ..pos }),
        ),
{
    assert(world::shift(pos, 0, -1, 0) == (BlockPos { y: (pos.y - 1) as i32, ..pos }));
    assert(world::shift(pos, 0, 1, 0) == (BlockPos { y: (pos.y + 1) as i32, ..pos }));
    assert(world::shift(pos, 0, 2, 0) == (BlockPos { y: (pos.y + 2) as i32, ..pos }));
}

/// What a block is said to be follows from its facts: only air is air, only
/// lava is lava, what can be climbed is climbed whatever its shape, only what
/// has no collision is passed or swum through, and only what is known to be low
/// or half a block is stood inside.
pub proof fn blocks_are_what_their_facts_say(facts: BlockFacts)
    ensures
        ({
            let kind = world::classified(facts);
            let lava = facts.name@ == "Lava"@;
            let column = facts.name@ == "BubbleColumn"@;
            let plain = !facts.air && !lava && !column;
            &&& kind is Air <==> facts.air
            &&& kind is Lava <==> !facts.air && lava
            &&& kind is Climbable <==> plain && facts.climbable
            &&& kind is Water <==> plain && !facts.climbable && facts.no_collision && facts.water
            &&& kind is Passable <==> plain && !facts.climbable && facts.no_collision
                && !facts.water
            &&& !(kind is Unloaded)
            &&& !facts.air && !lava && column ==> kind is Solid
            &&& kind is Step || kind is Fence ==> plain && !facts.climbable && !facts.no_collision
            &&& plain && !facts.climbable && !facts.no_collision && facts.at_most_half ==> kind
                == BlockKind::Step(facts.top_sixteenths)
            &&& kind is Fence ==> text::ends_with(facts.name@, "Fence"@) || text::ends_with(
                facts.name@,
                "FenceGate"@,
            ) || text::ends_with(facts.name@, "Wall"@)
        }),
{
}

/// Slabs and stairs that are taller than half a block are half blocks where
/// they fill the lower half and full blocks where they do not. Water in a block
/// counts only where the body can pass through it.
pub proof fn halves_and_waterlogging_are_told_apart(facts: BlockFacts, flooded: BlockFacts)
    requires
        !facts.air,
        facts.name@ != "Lava"@,
        facts.name@ != "BubbleColumn"@,
        !facts.climbable,
        !facts.no_collision,
        flooded == (BlockFacts { water: flooded.water, ..facts }),
    ensures
        world::classified(flooded) == world::classified(facts),
        !facts.at_most_half && (text::ends_with(facts.name@, "Slab"@) || text::ends_with(
            facts.name@,
            "Stairs"@,
        )) ==> {
            &&& facts.bottom_half ==> world::classified(facts) == BlockKind::Step(8)
            &&& !facts.bottom_half ==> world::classified(facts) is Solid
        },
{
}

/// Whether there is lava within a block of the feet in the column `(dx, dz)`
/// away.
pub open spec fn lava_in_column(terrain: Terrain, pos: BlockPos, dx: int, dz: int) -> bool {
    exists|dy: int|
        -1 <= dy <= 1 && #[trigger] step_laws::block(
            terrain,
            pos.x + dx,
            pos.y + dy,
            pos.z + dz,
        ) is Lava
}

/// Whether a column lies `distance` blocks away or nearer, sideways or
/// diagonally.
pub open spec fn no_further(dx: int, dz: int, distance: int) -> bool {
    -distance <= dx <= distance && -distance <= dz <= distance
}

proof fn lemma_column(terrain: Terrain, pos: BlockPos, dx: int, dz: int)
    requires
        step_laws::inland(pos),
        no_further(dx, dz, 33),
    ensures
        moves::column_lava(terrain, pos, dx, dz) <==> lava_in_column(terrain, pos, dx, dz),
{
    let low = BlockPos { x: (pos.x + dx) as i32, y: (pos.y - 1) as i32, z: (pos.z + dz) as i32 };
    let level = BlockPos { x: (pos.x + dx) as i32, y: pos.y, z: (pos.z + dz) as i32 };
    let high = BlockPos { x: (pos.x + dx) as i32, y: (pos.y + 1) as i32, z: (pos.z + dz) as i32 };
    assert(world::shift(pos, dx, -1, dz) == low);
    assert(world::shift(pos, dx, 0, dz) == level);
    assert(world::shift(pos, dx, 1, dz) == high);
    assert(step_laws::block(terrain, pos.x + dx, pos.y + (-1), pos.z + dz) == terrain.kind(low));
    assert(step_laws::block(terrain, pos.x + dx, pos.y + 0, pos.z + dz) == terrain.kind(level));
    assert(step_laws::block(terrain, pos.x + dx, pos.y + 1, pos.z + dz) == terrain.kind(high));
}

proof fn lemma_exposure(terrain: Terrain, pos: BlockPos, near: int, radius: int)
    requires
        step_laws::inland(pos),
        -1 <= radius <= 32,
        0 <= near <= radius + 1,
        near <= radius ==> exists|dx: int, dz: int|
            no_further(dx, dz, near) && #[trigger] lava_in_column(terrain, pos, dx, dz),
        forall|dx: int, dz: int|
            no_further(dx, dz, near - 1) ==> !#[trigger] lava_in_column(terrain, pos, dx, dz),
    ensures
        moves::exposure(terrain, pos, radius) == radius + 1 - near,
    decreases radius + 1,
{
    if near <= radius {
        let (dx, dz) = choose|dx: int, dz: int|
            no_further(dx, dz, near) && #[trigger] lava_in_column(terrain, pos, dx, dz);
        lemma_column(terrain, pos, dx, dz);
        assert(moves::chebyshev(dx, dz) <= radius && moves::column_lava(terrain, pos, dx, dz));
        assert(moves::lava_within(terrain, pos, radius));
        lemma_exposure(terrain, pos, near, radius - 1);
    } else if radius >= 0 {
        assert forall|dx: int, dz: int| moves::chebyshev(dx, dz) <= radius implies !(
        #[trigger] moves::column_lava(terrain, pos, dx, dz)) by {
            lemma_column(terrain, pos, dx, dz);
        }
    }
}

/// Lava exposure is one at the edge of the buffer and one more for every block
/// nearer the nearest lava is; without lava in the buffer there is none.
pub proof fn exposure_grows_towards_lava(
    terrain: Terrain,
    pos: BlockPos,
    clearance: i32,
    near: int,
)
    requires
        step_laws::inland(pos),
        0 <= clearance <= 32,
        0 <= near <= clearance + 1,
        near <= clearance ==> exists|dx: int, dz: int|
            no_further(dx, dz, near) && #[trigger] lava_in_column(terrain, pos, dx, dz),
        forall|dx: int, dz: int|
            no_further(dx, dz, near - 1) ==> !#[trigger] lava_in_column(terrain, pos, dx, dz),
    ensures
        moves::lava_exposure(terrain, pos, clearance) == clearance + 1 - near,
{
    lemma_exposure(terrain, pos, near, clearance as int);
}

/// A position counts as exposed exactly where there is lava in its buffer.
pub proof fn exposed_blocks_have_lava_nearby(terrain: Terrain, pos: BlockPos, clearance: i32)
    requires
        step_laws::inland(pos),
        0 <= clearance <= 32,
    ensures
        moves::lava_exposure(terrain, pos, clearance) > 0 <==> exists|dx: int, dz: int|
            no_further(dx, dz, clearance as int) && #[trigger] lava_in_column(terrain, pos, dx, dz),
        moves::lava_exposure(terrain, pos, clearance) <= clearance + 1,
{
    let c = clearance as int;
    lemma_exposure_bounds(terrain, pos, c);
    lemma_exposure_bounds(terrain, pos, c - 1);
    if exists|dx: int, dz: int|
        no_further(dx, dz, c) && #[trigger] lava_in_column(terrain, pos, dx, dz) {
        let (dx, dz) = choose|dx: int, dz: int|
            no_further(dx, dz, c) && #[trigger] lava_in_column(terrain, pos, dx, dz);
        lemma_column(terrain, pos, dx, dz);
        assert(moves::chebyshev(dx, dz) <= c && moves::column_lava(terrain, pos, dx, dz));
        assert(moves::lava_within(terrain, pos, c));
    } else {
        assert forall|dx: int, dz: int| moves::chebyshev(dx, dz) <= c implies !(
        #[trigger] moves::column_lava(terrain, pos, dx, dz)) by {
            lemma_column(terrain, pos, dx, dz);
            assert(no_further(dx, dz, c));
        }
    }
}

proof fn lemma_exposure_bounds(terrain: Terrain, pos: BlockPos, radius: int)
    requires
        radius >= -1,
    ensures
        0 <= moves::exposure(terrain, pos, radius) <= radius + 1,
    decreases radius + 1,
{
    if radius >= 0 {
        lemma_exposure_bounds(terrain, pos, radius - 1);
    }
}

/// Under a policy that forbids lava a step ends where there is none in the
/// buffer, or at least further from it than it began. Where lava is merely
/// charged for, every step is allowed.
pub proof fn steps_lead_away_from_lava(
    terrain: Terrain,
    from: BlockPos,
    to: BlockPos,
    ctx: &MoveContext,
    clearance: i32,
)
    requires
        step_laws::inland(from),
        step_laws::inland(to),
        ctx.lava_policy == (LavaPolicy::Forbidden { clearance }),
        0 <= clearance <= 32,
        moves::transition_allowed(
            tolls::lava_danger(terrain, from, ctx),
            tolls::lava_danger(terrain, to, ctx),
            ctx.lava_policy,
        ),
    ensures
        (forall|dx: int, dz: int|
            no_further(dx, dz, clearance as int) ==> !#[trigger] lava_in_column(
                terrain,
                to,
                dx,
                dz,
            )) || moves::lava_exposure(terrain, to, clearance) < moves::lava_exposure(
            terrain,
            from,
            clearance,
        ),
{
    exposed_blocks_have_lava_nearby(terrain, to, clearance);
}

/// A step between two places without lava in the buffer is always allowed, and
/// one onto such a place from anywhere; with lava merely charged for, any is.
pub proof fn safe_steps_are_allowed(
    terrain: Terrain,
    from: BlockPos,
    to: BlockPos,
    ctx: &MoveContext,
)
    requires
        step_laws::inland(to),
        ctx.lava_policy matches LavaPolicy::Forbidden { clearance } ==> {
            &&& 0 <= clearance <= 32
            &&& forall|dx: int, dz: int|
                no_further(dx, dz, clearance as int) ==> !#[trigger] lava_in_column(
                    terrain,
                    to,
                    dx,
                    dz,
                )
        },
    ensures
        moves::transition_allowed(
            tolls::lava_danger(terrain, from, ctx),
            tolls::lava_danger(terrain, to, ctx),
            ctx.lava_policy,
        ),
{
    if let LavaPolicy::Forbidden { clearance } = ctx.lava_policy {
        exposed_blocks_have_lava_nearby(terrain, to, clearance);
    }
}

proof fn lemma_ring(terrain: Terrain, pos: BlockPos, distance: int, near: int, radius: int)
    requires
        step_laws::inland(pos),
        1 <= distance <= near <= radius + 1,
        radius <= 32,
        near <= radius ==> exists|dx: int, dz: int|
            no_further(dx, dz, near) && !no_further(dx, dz, near - 1)
                && #[trigger] lava_in_column(terrain, pos, dx, dz),
        forall|dx: int, dz: int|
            !no_further(dx, dz, 0) && no_further(dx, dz, near - 1) ==> !#[trigger] lava_in_column(
                terrain,
                pos,
                dx,
                dz,
            ),
    ensures
        moves::ring_weight(terrain, pos, distance, radius) == radius + 1 - near,
    decreases radius + 1 - distance,
{
    if distance <= radius {
        if distance < near {
            assert forall|dx: int, dz: int| moves::chebyshev(dx, dz) == distance implies !(
            #[trigger] moves::column_lava(terrain, pos, dx, dz)) by {
                lemma_column(terrain, pos, dx, dz);
                assert(no_further(dx, dz, near - 1));
                assert(!no_further(dx, dz, 0));
            }
            assert(!moves::ring_lava(terrain, pos, distance));
            lemma_ring(terrain, pos, distance + 1, near, radius);
        } else {
            let (dx, dz) = choose|dx: int, dz: int|
                no_further(dx, dz, near) && !no_further(dx, dz, near - 1)
                    && #[trigger] lava_in_column(terrain, pos, dx, dz);
            lemma_column(terrain, pos, dx, dz);
            assert(moves::chebyshev(dx, dz) == distance && moves::column_lava(
                terrain,
                pos,
                dx,
                dz,
            ));
        }
    }
}

/// The toll for lava nearby is charged once, for the nearest, and once more for
/// every block that it is nearer than the edge of the radius; lava further away
/// costs nothing.
pub proof fn only_the_nearest_lava_is_charged(
    terrain: Terrain,
    pos: BlockPos,
    radius: i32,
    per_block: Cost,
    near: int,
)
    requires
        step_laws::inland(pos),
        1 <= radius <= 32,
        1 <= near <= radius + 1,
        near <= radius ==> exists|dx: int, dz: int|
            no_further(dx, dz, near) && !no_further(dx, dz, near - 1)
                && #[trigger] lava_in_column(terrain, pos, dx, dz),
        forall|dx: int, dz: int|
            !no_further(dx, dz, 0) && no_further(dx, dz, near - 1) ==> !#[trigger] lava_in_column(
                terrain,
                pos,
                dx,
                dz,
            ),
    ensures
        moves::proximity_toll(terrain, pos, radius, per_block) == arith::min_int(
            per_block * (radius + 1 - near),
            u32::MAX as int,
        ),
{
    lemma_ring(terrain, pos, 1, near, radius as int);
    assert(per_block * (radius + 1 - near) >= 0) by (nonlinear_arith)
        requires
            radius + 1 - near >= 0,
    ;
}

/// Whether a wall stands in the column `(dx, dz)` away, at the feet or at the
/// head.
pub open spec fn wall_in_column(terrain: Terrain, pos: BlockPos, dx: int, dz: int) -> bool {
    exists|dy: int|
        0 <= dy <= 1 && {
            let kind = #[trigger] step_laws::block(
                terrain,
                pos.x + dx,
                pos.y + dy,
                pos.z + dz,
            );
            kind is Solid || kind is Fence
        }
}

/// One where a condition holds.
pub open spec fn count_if(condition: bool) -> int {
    if condition {
        1
    } else {
        0
    }
}

/// The walls beside a body.
pub open spec fn walls_beside(terrain: Terrain, pos: BlockPos) -> int {
    count_if(wall_in_column(terrain, pos, 1, 0)) + count_if(wall_in_column(terrain, pos, -1, 0))
        + count_if(wall_in_column(terrain, pos, 0, 1)) + count_if(
        wall_in_column(terrain, pos, 0, -1),
    )
}

/// Whether a body holds in the column `(dx, dz)` away, on the level.
pub open spec fn holds_beside(terrain: Terrain, pos: BlockPos, dx: int, dz: int) -> bool {
    terrain.stands(BlockPos { x: (pos.x + dx) as i32, y: pos.y, z: (pos.z + dz) as i32 })
}

/// The columns around a body that it can step into.
pub open spec fn room_around(terrain: Terrain, pos: BlockPos) -> int {
    count_if(holds_beside(terrain, pos, 1, 0)) + count_if(holds_beside(terrain, pos, -1, 0))
        + count_if(holds_beside(terrain, pos, 0, 1)) + count_if(holds_beside(terrain, pos, 0, -1))
        + count_if(holds_beside(terrain, pos, 1, 1)) + count_if(holds_beside(terrain, pos, 1, -1))
        + count_if(holds_beside(terrain, pos, -1, 1)) + count_if(
        holds_beside(terrain, pos, -1, -1),
    )
}

proof fn lemma_wall(terrain: Terrain, pos: BlockPos, dx: int, dz: int)
    requires
        step_laws::inland(pos),
        no_further(dx, dz, 1),
    ensures
        moves::walled(terrain, pos, dx, dz) <==> wall_in_column(terrain, pos, dx, dz),
{
    let feet = BlockPos { x: (pos.x + dx) as i32, y: pos.y, z: (pos.z + dz) as i32 };
    let head = BlockPos { x: (pos.x + dx) as i32, y: (pos.y + 1) as i32, z: (pos.z + dz) as i32 };
    assert(world::shift(pos, dx, 0, dz) == feet);
    assert(world::shift(pos, dx, 1, dz) == head);
    assert(step_laws::block(terrain, pos.x + dx, pos.y + 0, pos.z + dz) == terrain.kind(feet));
    assert(step_laws::block(terrain, pos.x + dx, pos.y + 1, pos.z + dz) == terrain.kind(head));
}

/// Hugging walls costs the toll for each of them in the open, and less the less
/// room there is to step away: a sixth for every column around, rounded down.
/// Without a wall, without room or without a toll it is free.
pub proof fn walls_are_charged_by_the_room_to_avoid_them(
    terrain: Terrain,
    pos: BlockPos,
    per_wall: Cost,
)
    requires
        step_laws::inland(pos),
    ensures
        ({
            let toll = moves::wall_toll(terrain, pos, per_wall) as int;
            let walls = walls_beside(terrain, pos);
            let room = arith::min_int(room_around(terrain, pos), 6);
            &&& toll < u32::MAX ==> 6 * toll <= per_wall * walls * room < 6 * (toll + 1)
            &&& toll == u32::MAX ==> 6 * toll <= per_wall * walls * room
            &&& walls == 0 || room == 0 || per_wall == 0 ==> toll == 0
            &&& room == 6 && per_wall * walls <= u32::MAX ==> toll == per_wall * walls
        }),
{
    lemma_wall(terrain, pos, 1, 0);
    lemma_wall(terrain, pos, -1, 0);
    lemma_wall(terrain, pos, 0, 1);
    lemma_wall(terrain, pos, 0, -1);
    let walls = walls_beside(terrain, pos);
    let room = arith::min_int(room_around(terrain, pos), 6);
    assert(moves::wall_count(terrain, pos) == walls);
    lemma_room(terrain, pos);
    assert(moves::room_count(terrain, pos) == room_around(terrain, pos));
    let n = per_wall * walls * room;
    assert(n >= 0) by (nonlinear_arith)
        requires
            n == per_wall * walls * room,
            per_wall >= 0,
            walls >= 0,
            room >= 0,
    ;
    assert(walls == 0 || room == 0 || per_wall == 0 ==> n == 0) by (nonlinear_arith)
        requires
            n == per_wall * walls * room,
    ;
    assert(room == 6 ==> n == 6 * (per_wall * walls)) by (nonlinear_arith)
        requires
            n == per_wall * walls * room,
    ;
}

proof fn lemma_room(terrain: Terrain, pos: BlockPos)
    requires
        step_laws::inland(pos),
    ensures
        moves::room_count(terrain, pos) == room_around(terrain, pos),
{
    assert forall|dx: int, dz: int| no_further(dx, dz, 1) implies terrain.stands(
        #[trigger] world::shift(pos, dx, 0, dz),
    ) == holds_beside(terrain, pos, dx, dz) by {
        assert(world::shift(pos, dx, 0, dz) == (BlockPos {
            x: (pos.x + dx) as i32,
            y: pos.y,
            z: (pos.z + dz) as i32,
        }));
    }
    assert(no_further(1, 0, 1) && no_further(-1, 0, 1) && no_further(0, 1, 1) && no_further(
        0,
        -1,
        1,
    ));
}

/// What standing somewhere costs is the sum of what is charged for it, and
/// nothing else: the walls, the lava it touches where lava is merely charged
/// for, the lava nearby, what is remembered of the place, a stone over
/// forbidden water, and a lifted corner.
pub proof fn tolls_add_up(terrain: Terrain, pos: BlockPos, ctx: &MoveContext)
    requires
        step_laws::inland(pos),
    ensures
        ({
            let feet = terrain.kind(pos);
            let head = step_laws::block(terrain, pos.x as int, pos.y + 1, pos.z as int);
            let floor = step_laws::block(terrain, pos.x as int, pos.y - 1, pos.z as int);
            let walls = moves::wall_toll(terrain, pos, ctx.wall_penalty);
            let nearby = moves::proximity_toll(
                terrain,
                pos,
                ctx.lava_proximity_radius,
                ctx.lava_proximity_penalty,
            );
            let touching = ctx.lava_policy is Penalized && (feet is Lava || head is Lava
                || floor is Lava);
            let stone = ctx.water_policy is Forbidden && feet is Step && floor is Water;
            let remembered = ctx.avoid@.contains_key(pos);
            let sum = walls + nearby + (if touching {
                ctx.lava_penalty as int
            } else {
                0
            }) + (if stone {
                ctx.water_penalty as int
            } else {
                0
            }) + (if remembered {
                ctx.avoid@[pos] as int
            } else {
                0
            }) + (if lifted(terrain, pos) {
                ctx.grazing_step_penalty as int
            } else {
                0
            });
            tolls::standing_toll(terrain, pos, ctx) == arith::min_int(sum, u32::MAX as int)
        }),
{
    assert(world::shift(pos, 0, 1, 0) == (BlockPos { y: (pos.y + 1) as i32, ..pos }));
    assert(world::shift(pos, 0, -1, 0) == (BlockPos { y: (pos.y - 1) as i32, ..pos }));
    lemma_lifted(terrain, pos);
}

/// Whether the corner of a body in a partial block is lifted by a taller one in
/// any of the eight columns around it.
pub open spec fn lifted(terrain: Terrain, pos: BlockPos) -> bool {
    terrain.kind(pos) is Step && exists|dx: int, dz: int|
        no_further(dx, dz, 1) && {
            let beside = #[trigger] step_laws::block(
                terrain,
                pos.x + dx,
                pos.y as int,
                pos.z + dz,
            );
            beside is Step && beside->Step_0 > terrain.kind(pos)->Step_0
        }
}

proof fn lemma_lifted(terrain: Terrain, pos: BlockPos)
    requires
        step_laws::inland(pos),
    ensures
        tolls::grazes(terrain, pos) <==> lifted(terrain, pos),
{
    if let BlockKind::Step(here) = terrain.kind(pos) {
        assert forall|dx: int, dz: int| no_further(dx, dz, 1) implies (
        #[trigger] tolls::taller_beside(terrain, pos, dx, dz, here) <==> {
            let beside = step_laws::block(terrain, pos.x + dx, pos.y as int, pos.z + dz);
            beside is Step && beside->Step_0 > here
        }) by {
            assert(world::shift(pos, dx, 0, dz) == (BlockPos {
                x: (pos.x + dx) as i32,
                y: pos.y,
                z: (pos.z + dz) as i32,
            }));
        }
        if lifted(terrain, pos) {
            let (dx, dz) = choose|dx: int, dz: int|
                no_further(dx, dz, 1) && {
                    let beside = #[trigger] step_laws::block(
                        terrain,
                        pos.x + dx,
                        pos.y as int,
                        pos.z + dz,
                    );
                    beside is Step && beside->Step_0 > terrain.kind(pos)->Step_0
                };
            assert(tolls::taller_beside(terrain, pos, dx, dz, here));
            assert(!(dx == 0 && dz == 0));
        }
        if tolls::grazes(terrain, pos) {
            lemma_lifted_by(terrain, pos, here, -1, -1);
            lemma_lifted_by(terrain, pos, here, -1, 0);
            lemma_lifted_by(terrain, pos, here, -1, 1);
            lemma_lifted_by(terrain, pos, here, 0, -1);
            lemma_lifted_by(terrain, pos, here, 0, 1);
            lemma_lifted_by(terrain, pos, here, 1, -1);
            lemma_lifted_by(terrain, pos, here, 1, 0);
            lemma_lifted_by(terrain, pos, here, 1, 1);
        }
    }
}

proof fn lemma_lifted_by(terrain: Terrain, pos: BlockPos, here: u8, dx: int, dz: int)
    requires
        step_laws::inland(pos),
        no_further(dx, dz, 1),
        terrain.kind(pos) == BlockKind::Step(here),
    ensures
        tolls::taller_beside(terrain, pos, dx, dz, here) ==> lifted(terrain, pos),
{
    assert(world::shift(pos, dx, 0, dz) == (BlockPos {
        x: (pos.x + dx) as i32,
        y: pos.y,
        z: (pos.z + dz) as i32,
    }));
    assert(step_laws::block(terrain, pos.x + dx, pos.y as int, pos.z + dz) == terrain.kind(
        world::shift(pos, dx, 0, dz),
    ));
}

} // verus!
