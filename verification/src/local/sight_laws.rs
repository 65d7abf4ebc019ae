//! Which ways a follower takes for clear, safe and in sight.
use vstd::prelude::*;

use crate::arith;
use crate::local::line;
use crate::local::line::LineSample;
use crate::local::moves::LavaPolicy;
use crate::local::rules::step_laws;
use crate::local::terrain_laws;
use crate::local::world;
use crate::local::world::Terrain;
use crate::pos::BlockPos;
use crate::types::PathNode;

verus! {

/// Whether the policy finds no lava too near a position.
pub open spec fn clear_of_lava(terrain: Terrain, pos: BlockPos, policy: LavaPolicy) -> bool {
    policy matches LavaPolicy::Forbidden { clearance } ==> forall|dx: int, dz: int|
        terrain_laws::no_further(dx, dz, clearance as int)
            ==> !#[trigger] terrain_laws::lava_in_column(terrain, pos, dx, dz)
}

/// Whether a policy asks for a clearance that can be scanned.
pub open spec fn scannable(policy: LavaPolicy) -> bool {
    policy matches LavaPolicy::Forbidden { clearance } ==> 0 <= clearance <= 32
}

/// A position counts as safe exactly where the policy finds no lava too near
/// it; where lava is merely charged for, everything is safe.
pub proof fn safe_ground_is_clear_of_lava(terrain: Terrain, pos: BlockPos, policy: LavaPolicy)
    requires
        step_laws::inland(pos),
        scannable(policy),
    ensures
        line::policy_risk(terrain, pos, policy) == 0 <==> clear_of_lava(terrain, pos, policy),
{
    if let LavaPolicy::Forbidden { clearance } = policy {
        terrain_laws::exposed_blocks_have_lava_nearby(terrain, pos, clearance);
    }
}

/// From safe ground a way is safe exactly where its end and every block on it
/// are clear of lava.
pub proof fn safe_ways_are_clear_of_lava(
    terrain: Terrain,
    from: BlockPos,
    to: BlockPos,
    policy: LavaPolicy,
    way: Seq<BlockPos>,
)
    requires
        scannable(policy),
        step_laws::inland(from),
        step_laws::inland(to),
        forall|i: int| 0 <= i < way.len() ==> step_laws::inland(#[trigger] way[i]),
        clear_of_lava(terrain, from, policy),
    ensures
        line::way_is_safe(terrain, from, to, policy, way) <==> clear_of_lava(terrain, to, policy)
            && forall|i: int|
            0 <= i < way.len() ==> clear_of_lava(terrain, #[trigger] way[i], policy),
{
    safe_ground_is_clear_of_lava(terrain, from, policy);
    safe_ground_is_clear_of_lava(terrain, to, policy);
    assert forall|i: int| 0 <= i < way.len() implies (line::policy_risk(
        terrain,
        #[trigger] way[i],
        policy,
    ) == 0 <==> clear_of_lava(terrain, way[i], policy)) by {
        safe_ground_is_clear_of_lava(terrain, way[i], policy);
    }
}

/// From exposed ground a way is safe exactly where it leads to less exposure,
/// whatever lies on it.
pub proof fn exposed_bodies_may_only_retreat(
    terrain: Terrain,
    from: BlockPos,
    to: BlockPos,
    policy: LavaPolicy,
    way: Seq<BlockPos>,
)
    requires
        scannable(policy),
        step_laws::inland(from),
        !clear_of_lava(terrain, from, policy),
    ensures
        line::way_is_safe(terrain, from, to, policy, way) <==> line::policy_risk(
            terrain,
            to,
            policy,
        ) < line::policy_risk(terrain, from, policy),
{
    safe_ground_is_clear_of_lava(terrain, from, policy);
}

/// Whether a body that walks past at height `y` brushes no wall in a column, at
/// the feet or at the head.
pub open spec fn no_wall(terrain: Terrain, x: i32, z: i32, y: int) -> bool {
    let feet = step_laws::block(terrain, x as int, y, z as int);
    let head = step_laws::block(terrain, x as int, y + 1, z as int);
    !(feet is Solid) && !(feet is Fence) && !(head is Solid) && !(head is Fence)
}

/// Whether a walk can stand in a column at height `y`: on its feet, clear of
/// lava, and without a wall at either side.
pub open spec fn walkable_at(
    terrain: Terrain,
    sample: LineSample,
    y: int,
    policy: LavaPolicy,
) -> bool {
    let pos = BlockPos { x: sample.center_x, y: y as i32, z: sample.center_z };
    &&& step_laws::on_feet(terrain, pos)
    &&& clear_of_lava(terrain, pos, policy)
    &&& no_wall(terrain, sample.left_x, sample.left_z, y)
    &&& no_wall(terrain, sample.right_x, sample.right_z, y)
}

/// Whether a body holds in the column of a sample at height `y`.
pub open spec fn held_at(terrain: Terrain, sample: LineSample, y: int) -> bool {
    terrain.stands(BlockPos { x: sample.center_x, y: y as i32, z: sample.center_z })
}

/// A sample of a walk is clear exactly where the body can stand in its column:
/// on the level if it holds there, otherwise one up, and otherwise one down.
pub proof fn samples_are_clear_where_bodies_walk(
    terrain: Terrain,
    sample: LineSample,
    feet_y: i32,
    policy: LavaPolicy,
)
    requires
        scannable(policy),
        step_laws::inland(
            BlockPos { x: sample.center_x, y: (feet_y - 1) as i32, z: sample.center_z },
        ),
        step_laws::inland(
            BlockPos { x: sample.center_x, y: (feet_y + 1) as i32, z: sample.center_z },
        ),
        i32::MIN + 400 <= feet_y <= i32::MAX - 400,
    ensures
        ({
            let level = held_at(terrain, sample, feet_y as int);
            let up = held_at(terrain, sample, feet_y + 1);
            line::sample_clear(terrain, sample, feet_y, policy) <==> {
                ||| level && walkable_at(terrain, sample, feet_y as int, policy)
                ||| !level && up && walkable_at(terrain, sample, feet_y + 1, policy)
                ||| !level && !up && walkable_at(terrain, sample, feet_y - 1, policy)
            }
        }),
{
    let level = BlockPos { x: sample.center_x, y: feet_y, z: sample.center_z };
    let up = BlockPos { y: (feet_y + 1) as i32, ..level };
    let down = BlockPos { y: (feet_y - 1) as i32, ..level };
    assert(world::shift(level, 0, 1, 0) == up);
    assert(world::shift(level, 0, -1, 0) == down);
    safe_ground_is_clear_of_lava(terrain, level, policy);
    safe_ground_is_clear_of_lava(terrain, up, policy);
    safe_ground_is_clear_of_lava(terrain, down, policy);
    lemma_wall(terrain, sample.left_x, sample.left_z, feet_y);
    lemma_wall(terrain, sample.right_x, sample.right_z, feet_y);
    lemma_wall(terrain, sample.left_x, sample.left_z, (feet_y + 1) as i32);
    lemma_wall(terrain, sample.right_x, sample.right_z, (feet_y + 1) as i32);
    lemma_wall(terrain, sample.left_x, sample.left_z, (feet_y - 1) as i32);
    lemma_wall(terrain, sample.right_x, sample.right_z, (feet_y - 1) as i32);
}

proof fn lemma_wall(terrain: Terrain, x: i32, z: i32, y: i32)
    requires
        y < i32::MAX,
    ensures
        line::brushes(terrain, x, z, y) <==> !no_wall(terrain, x, z, y as int),
{
    let at = BlockPos { x, y, z };
    assert(world::shift(at, 0, 1, 0) == (BlockPos { y: (y + 1) as i32, ..at }));
}

/// A follower sees as far as the nodes stay within a block of its own height
/// and the walks to them stay clear, without a gap: it looks past no node that
/// it does not see, and stops short of none that it does.
pub proof fn sight_ends_at_the_first_hidden_node(
    terrain: Terrain,
    nodes: Seq<PathNode>,
    idx: int,
    limit: int,
    lines: Seq<Vec<LineSample>>,
    policy: LavaPolicy,
    best: int,
    j: int,
)
    requires
        line::furthest_in_sight(terrain, nodes, idx, limit, lines, policy, best),
        idx < j <= limit,
    ensures
        idx <= best <= limit,
        j <= best ==> {
            &&& arith::abs_int(nodes[j].pos.y - nodes[idx].pos.y) <= 1
            &&& forall|s: int|
                0 <= s < lines[j - idx - 1]@.len() ==> line::sample_clear(
                    terrain,
                    #[trigger] lines[j - idx - 1]@[s],
                    nodes[idx].pos.y,
                    policy,
                )
        },
        best < limit && j == best + 1 ==> {
            ||| arith::abs_int(nodes[j].pos.y - nodes[idx].pos.y) > 1
            ||| exists|s: int|
                0 <= s < lines[j - idx - 1]@.len() && !line::sample_clear(
                    terrain,
                    #[trigger] lines[j - idx - 1]@[s],
                    nodes[idx].pos.y,
                    policy,
                )
        },
{
    if j <= best {
        assert(line::node_visible(
            terrain,
            nodes[j],
            line::line_to(lines, idx + 1, j),
            nodes[idx].pos.y,
            policy,
        ));
    }
    if best < limit && j == best + 1 {
        assert(line::line_to(lines, idx + 1, best + 1) == lines[j - idx - 1]@);
        if arith::abs_int(nodes[j].pos.y - nodes[idx].pos.y) <= 1 {
            assert(!line::line_clear(terrain, lines[j - idx - 1]@, nodes[idx].pos.y, policy));
        }
    }
}

/// How far a follower may look: no further than it may skip, than its path
/// goes, and than walks were sampled.
pub proof fn sight_is_limited(nodes: int, idx: int, skip: int, lines: int)
    requires
        0 <= idx < nodes,
        skip >= 0,
        lines >= 0,
    ensures
        ({
            let limit = line::sight_limit(nodes, idx, skip, lines);
            &&& idx <= limit < nodes
            &&& limit <= idx + skip
            &&& limit <= idx + lines
            &&& limit == idx + skip || limit == nodes - 1 || limit == idx + lines
        }),
{
}

/// A ladder hangs on a solid block beside it, if there is one. Nothing but a
/// ladder does.
pub proof fn ladders_hang_on_solid_blocks(terrain: Terrain, feet: BlockPos)
    requires
        step_laws::inland(feet),
    ensures
        line::fixing(terrain, feet) matches Some(wall) ==> {
            &&& terrain.kind(feet) is Climbable
            &&& terrain.kind(wall) is Solid
            &&& step_laws::sideways(feet, wall) && wall.y == feet.y
        },
        line::fixing(terrain, feet) is None && terrain.kind(feet) is Climbable ==> forall|
            wall: BlockPos,
        |
            #[trigger] step_laws::sideways(feet, wall) && wall.y == feet.y ==> !(terrain.kind(
                wall,
            ) is Solid),
{
    if line::fixing(terrain, feet) is None && terrain.kind(feet) is Climbable {
        assert forall|wall: BlockPos| #[trigger]
            step_laws::sideways(feet, wall) && wall.y == feet.y implies !(terrain.kind(
            wall,
        ) is Solid) by {
            let dx = wall.x - feet.x;
            let dz = wall.z - feet.z;
            assert(wall == world::shift(feet, dx, 0, dz));
        }
    }
}

} // verus!
