//! Which straight walks are clear, decided on sampled columns.
use vstd::prelude::*;

use crate::arith;
use crate::arith::abs_diff_i32;
use crate::local::moves;
use crate::local::moves::{lava_risk, lava_transition_allowed, LavaPolicy};
use crate::local::world;
use crate::local::world::{offset, BlockKind, Terrain, WorldView};
use crate::pos::BlockPos;
use crate::types::{Cost, PathNode};

verus! {

/// One sample of a straight walk: the column under the middle of the body, and
/// the columns under its two sides.
#[derive(Clone, Copy, PartialEq, Eq, Structural, Debug)]
pub struct LineSample {
    pub center_x: i32,
    pub center_z: i32,
    pub left_x: i32,
    pub left_z: i32,
    pub right_x: i32,
    pub right_z: i32,
}

/// Lava exposure as a policy counts it.
pub open spec fn policy_risk(terrain: Terrain, pos: BlockPos, policy: LavaPolicy) -> Cost {
    match policy {
        LavaPolicy::Forbidden { clearance } => moves::lava_exposure(terrain, pos, clearance),
        LavaPolicy::Penalized => 0,
    }
}

pub fn position_lava_risk<W: WorldView + ?Sized>(world: &W, pos: BlockPos, policy: LavaPolicy) -> (
risk: Cost)
    ensures
        risk == policy_risk(world.terrain(), pos, policy),
{
    match policy {
        LavaPolicy::Forbidden { clearance } => lava_risk(pos, world, clearance),
        LavaPolicy::Penalized => 0,
    }
}

/// Where a walk at height `feet_y` stands in a column: level, one step up, or
/// one step down.
pub open spec fn footing(terrain: Terrain, x: i32, z: i32, feet_y: i32) -> Option<BlockPos> {
    let level = BlockPos { x, y: feet_y, z };
    if terrain.stands(level) {
        Some(level)
    } else if terrain.stands(world::shift(level, 0, 1, 0)) {
        Some(world::shift(level, 0, 1, 0))
    } else if terrain.stands(world::shift(level, 0, -1, 0)) {
        Some(world::shift(level, 0, -1, 0))
    } else {
        None
    }
}

pub open spec fn is_wall(kind: BlockKind) -> bool {
    kind is Solid || kind is Fence
}

/// Whether the side of a body at `height` brushes a wall at foot or head.
pub open spec fn brushes(terrain: Terrain, x: i32, z: i32, height: i32) -> bool {
    let at = BlockPos { x, y: height, z };
    is_wall(terrain.kind(at)) || is_wall(terrain.kind(world::shift(at, 0, 1, 0)))
}

/// Whether one sample of a walk is clear: there is dry footing within a step,
/// free of lava risk, with room for the body on both sides.
pub open spec fn sample_clear(
    terrain: Terrain,
    sample: LineSample,
    feet_y: i32,
    policy: LavaPolicy,
) -> bool {
    match footing(terrain, sample.center_x, sample.center_z, feet_y) {
        None => false,
        Some(center) => {
            &&& !(terrain.kind(center) is Water)
            &&& !(terrain.kind(center) is Climbable)
            &&& policy_risk(terrain, center, policy) == 0
            &&& !brushes(terrain, sample.left_x, sample.left_z, center.y)
            &&& !brushes(terrain, sample.right_x, sample.right_z, center.y)
        },
    }
}

fn wall_beside<W: WorldView + ?Sized>(world: &W, x: i32, z: i32, height: i32) -> (r: bool)
    ensures
        r == brushes(world.terrain(), x, z, height),
{
    let at = BlockPos { x, y: height, z };
    let feet: bool = match world.block(at) {
        BlockKind::Solid | BlockKind::Fence => true,
        _ => false,
    };
    feet || match world.block(offset(at, 0, 1, 0)) {
        BlockKind::Solid | BlockKind::Fence => true,
        _ => false,
    }
}

fn sample_is_clear<W: WorldView + ?Sized>(
    world: &W,
    sample: &LineSample,
    feet_y: i32,
    policy: LavaPolicy,
) -> (clear: bool)
    ensures
        clear == sample_clear(world.terrain(), *sample, feet_y, policy),
{
    let level = BlockPos { x: sample.center_x, y: feet_y, z: sample.center_z };
    let center = if world.standable(level) {
        level
    } else if world.standable(offset(level, 0, 1, 0)) {
        offset(level, 0, 1, 0)
    } else if world.standable(offset(level, 0, -1, 0)) {
        offset(level, 0, -1, 0)
    } else {
        return false;
    };
    match world.block(center) {
        BlockKind::Water | BlockKind::Climbable => {
            return false;
        },
        _ => {},
    }
    if position_lava_risk(world, center, policy) > 0 {
        return false;
    }
    !wall_beside(world, sample.left_x, sample.left_z, center.y) && !wall_beside(
        world,
        sample.right_x,
        sample.right_z,
        center.y,
    )
}

/// Whether every sample of a walk is clear.
pub open spec fn line_clear(
    terrain: Terrain,
    samples: Seq<LineSample>,
    feet_y: i32,
    policy: LavaPolicy,
) -> bool {
    forall|i: int|
        0 <= i < samples.len() ==> sample_clear(terrain, #[trigger] samples[i], feet_y, policy)
}

/// Whether a straight walk is clear. Level, or one step up or down: the path
/// already said this run is walkable; the job here is to reject shortcuts
/// across a hole or a wall, not to insist the floor never changes height.
pub fn line_walkable<W: WorldView + ?Sized>(
    world: &W,
    samples: &[LineSample],
    feet_y: i32,
    policy: LavaPolicy,
) -> (clear: bool)
    ensures
        clear == line_clear(world.terrain(), samples@, feet_y, policy),
{
    let mut i: usize = 0;
    while i < samples.len()
        invariant
            i <= samples@.len(),
            forall|j: int|
                0 <= j < i ==> sample_clear(world.terrain(), #[trigger] samples@[j], feet_y, policy),
        decreases samples@.len() - i,
    {
        if !sample_is_clear(world, &samples[i], feet_y, policy) {
            return false;
        }
        i += 1;
    }
    true
}

/// Whether the way to the next node is still safe: the step itself lowers or
/// avoids lava exposure, and from safe ground every block on the way is safe.
pub open spec fn way_is_safe(
    terrain: Terrain,
    from: BlockPos,
    to: BlockPos,
    policy: LavaPolicy,
    way: Seq<BlockPos>,
) -> bool {
    let (from_risk, to_risk) = (policy_risk(terrain, from, policy), policy_risk(terrain, to, policy));
    &&& moves::transition_allowed(from_risk, to_risk, policy)
    &&& from_risk > 0 || forall|i: int|
        0 <= i < way.len() ==> policy_risk(terrain, #[trigger] way[i], policy) == 0
}

pub fn live_next_node_is_safe<W: WorldView + ?Sized>(
    world: &W,
    from: BlockPos,
    to: BlockPos,
    policy: LavaPolicy,
    way: &[BlockPos],
) -> (safe: bool)
    ensures
        safe == way_is_safe(world.terrain(), from, to, policy, way@),
{
    let from_risk: Cost = position_lava_risk(world, from, policy);
    let to_risk: Cost = position_lava_risk(world, to, policy);
    if !lava_transition_allowed(from_risk, to_risk, policy) {
        return false;
    }
    if from_risk > 0 {
        return true;
    }
    let mut i: usize = 0;
    while i < way.len()
        invariant
            i <= way@.len(),
            policy_risk(world.terrain(), from, policy) == 0,
            forall|j: int|
                0 <= j < i ==> policy_risk(world.terrain(), #[trigger] way@[j], policy) == 0,
        decreases way@.len() - i,
    {
        if position_lava_risk(world, way[i], policy) != 0 {
            return false;
        }
        i += 1;
    }
    true
}

/// A follower on safe ground never steps towards exposed ground.
pub proof fn safe_ways_stay_safe(
    terrain: Terrain,
    from: BlockPos,
    to: BlockPos,
    policy: LavaPolicy,
    way: Seq<BlockPos>,
)
    requires
        way_is_safe(terrain, from, to, policy, way),
        policy is Forbidden,
        policy_risk(terrain, from, policy) == 0,
    ensures
        policy_risk(terrain, to, policy) == 0,
        forall|i: int| 0 <= i < way.len() ==> policy_risk(terrain, #[trigger] way[i], policy) == 0,
{
}

/// Whether a node can be steered at from height `feet_y`: it is within one
/// block of that height, and the walk to it is clear.
pub open spec fn node_visible(
    terrain: Terrain,
    node: PathNode,
    samples: Seq<LineSample>,
    feet_y: i32,
    policy: LavaPolicy,
) -> bool {
    arith::abs_int(node.pos.y - feet_y) <= 1 && line_clear(terrain, samples, feet_y, policy)
}

/// The walks to successive nodes: `lines[k]` leads to node `first + k`.
pub open spec fn line_to(lines: Seq<Vec<LineSample>>, first: int, node: int) -> Seq<LineSample> {
    lines[node - first]@
}

/// Whether `best` is the furthest node in sight: every node after `idx` up to
/// it is visible, and the one after it is not, or is too far ahead.
pub open spec fn furthest_in_sight(
    terrain: Terrain,
    nodes: Seq<PathNode>,
    idx: int,
    limit: int,
    lines: Seq<Vec<LineSample>>,
    policy: LavaPolicy,
    best: int,
) -> bool {
    &&& idx <= best <= limit
    &&& forall|j: int|
        idx < j <= best ==> node_visible(
            terrain,
            #[trigger] nodes[j],
            line_to(lines, idx + 1, j),
            nodes[idx].pos.y,
            policy,
        )
    &&& best == limit || !node_visible(
        terrain,
        nodes[best + 1],
        line_to(lines, idx + 1, best + 1),
        nodes[idx].pos.y,
        policy,
    )
}

/// How far ahead a follower may look from node `idx`: as many nodes as it may
/// skip, there are, and walks were sampled to.
pub open spec fn sight_limit(nodes: int, idx: int, skip: int, lines: int) -> int {
    arith::min_int(arith::min_int(idx + skip, nodes - 1), idx + lines)
}

/// The furthest node still in sight. One block of height difference is still a
/// straight walk: auto-step covers half a block and the follower jumps the
/// rest.
pub fn furthest_visible<W: WorldView + ?Sized>(
    world: &W,
    nodes: &Vec<PathNode>,
    idx: usize,
    skip: usize,
    lines: &Vec<Vec<LineSample>>,
    policy: LavaPolicy,
) -> (best: usize)
    ensures
        nodes@.len() == 0 ==> best == 0,
        nodes@.len() > 0 ==> {
            let here = arith::min_int(idx as int, nodes@.len() - 1);
            furthest_in_sight(
                world.terrain(),
                nodes@,
                here,
                sight_limit(nodes@.len() as int, here, skip as int, lines@.len() as int),
                lines@,
                policy,
                best as int,
            )
        },
{
    if nodes.len() == 0 {
        return 0;
    }
    let last: usize = nodes.len() - 1;
    let here: usize = if idx < last {
        idx
    } else {
        last
    };
    let by_skip: usize = here.saturating_add(skip);
    let by_lines: usize = here.saturating_add(lines.len());
    let near: usize = if by_skip < last {
        by_skip
    } else {
        last
    };
    let limit: usize = if by_lines < near {
        by_lines
    } else {
        near
    };
    let y: i32 = nodes[here].pos.y;
    let mut best: usize = here;
    while best < limit
        invariant
            here <= best <= limit <= last,
            last == nodes@.len() - 1,
            here == arith::min_int(idx as int, nodes@.len() - 1),
            limit == sight_limit(nodes@.len() as int, here as int, skip as int, lines@.len() as int),
            limit - here <= lines@.len(),
            y == nodes@[here as int].pos.y,
            forall|j: int|
                here < j <= best ==> node_visible(
                    world.terrain(),
                    #[trigger] nodes@[j],
                    line_to(lines@, here + 1, j),
                    y,
                    policy,
                ),
        decreases limit - best,
    {
        let next: usize = best + 1;
        let clear: bool = abs_diff_i32(nodes[next].pos.y, y) <= 1 && line_walkable(
            world,
            lines[next - (here + 1)].as_slice(),
            y,
            policy,
        );
        if !clear {
            return best;
        }
        best = next;
    }
    best
}

/// The block a ladder at the feet is fixed to, trying the four sides in order.
pub open spec fn fixing(terrain: Terrain, feet: BlockPos) -> Option<BlockPos> {
    if !(terrain.kind(feet) is Climbable) {
        None
    } else if terrain.kind(world::shift(feet, 1, 0, 0)) is Solid {
        Some(world::shift(feet, 1, 0, 0))
    } else if terrain.kind(world::shift(feet, -1, 0, 0)) is Solid {
        Some(world::shift(feet, -1, 0, 0))
    } else if terrain.kind(world::shift(feet, 0, 0, 1)) is Solid {
        Some(world::shift(feet, 0, 0, 1))
    } else if terrain.kind(world::shift(feet, 0, 0, -1)) is Solid {
        Some(world::shift(feet, 0, 0, -1))
    } else {
        None
    }
}

/// The block a ladder is fixed to, if the feet are in one.
///
/// A ladder's collision box is a sliver against this block, and its whole
/// purpose here is to give the climb something to press against.
pub fn ladder_wall<W: WorldView + ?Sized>(world: &W, feet: BlockPos) -> (wall: Option<BlockPos>)
    ensures
        wall == fixing(world.terrain(), feet),
{
    if world.block(feet) != BlockKind::Climbable {
        return None;
    }
    let east = offset(feet, 1, 0, 0);
    if world.block(east) == BlockKind::Solid {
        return Some(east);
    }
    let west = offset(feet, -1, 0, 0);
    if world.block(west) == BlockKind::Solid {
        return Some(west);
    }
    let south = offset(feet, 0, 0, 1);
    if world.block(south) == BlockKind::Solid {
        return Some(south);
    }
    let north = offset(feet, 0, 0, -1);
    if world.block(north) == BlockKind::Solid {
        return Some(north);
    }
    None
}

} // verus!
