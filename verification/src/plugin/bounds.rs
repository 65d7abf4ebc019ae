//! Which blocks a leg looks at, and where a goal can be stood in.
use vstd::prelude::*;

use crate::arith;
use crate::arith::{abs_diff_i32, saturating_add_i32, saturating_sub_i32};
use crate::local::moves::{LavaPolicy, MAX_LAVA_SCAN_RADIUS};
use crate::local::settings::FollowerSettings;
use crate::local::world;
use crate::local::world::{offset, Terrain, WorldView};
use crate::plugin::settings::PathfinderSettings;
use crate::pos::BlockPos;
use crate::types::{Path, PathNode};

verus! {

/// The captured coordinates along one axis: the line from start to target with
/// a margin on both sides. A line longer than the cap is cut off on the
/// target's side.
pub open spec fn axis_bounds(start: i32, target: i32, margin: int, max_span: int) -> (i32, i32) {
    let low = arith::clamp_i32(arith::min_int(start as int, target as int) - margin);
    let high = arith::clamp_i32(arith::max_int(start as int, target as int) + margin);
    if high - low <= max_span {
        (low, high)
    } else if target >= start {
        let near = arith::clamp_i32(start - margin);
        (near, arith::clamp_i32(near + max_span))
    } else {
        let near = arith::clamp_i32(start + margin);
        (arith::clamp_i32(near - max_span), near)
    }
}

fn axis(start: i32, target: i32, margin: i32, max_span: i32) -> (bounds: (i32, i32))
    requires
        margin >= 0,
        max_span >= 1,
    ensures
        bounds == axis_bounds(start, target, margin as int, max_span as int),
{
    let lesser: i32 = if start <= target {
        start
    } else {
        target
    };
    let greater: i32 = if start <= target {
        target
    } else {
        start
    };
    let low: i32 = saturating_sub_i32(lesser, margin);
    let high: i32 = saturating_add_i32(greater, margin);
    if high as i64 - low as i64 > max_span as i64 {
        if target >= start {
            let near: i32 = saturating_sub_i32(start, margin);
            (near, saturating_add_i32(near, max_span))
        } else {
            let near: i32 = saturating_add_i32(start, margin);
            (saturating_sub_i32(near, max_span), near)
        }
    } else {
        (low, high)
    }
}

/// The corners of the area that a leg is planned in.
pub open spec fn leg_area(start: BlockPos, target: BlockPos, settings: PathfinderSettings) -> (
    BlockPos,
    BlockPos,
) {
    let margin = arith::max_int(settings.snapshot_margin as int, 0);
    let wide = arith::max_int(settings.snapshot_max_span_xz as int, 1);
    let tall = arith::max_int(settings.snapshot_max_span_y as int, 1);
    let (lx, hx) = axis_bounds(start.x, target.x, margin, wide);
    let (ly, hy) = axis_bounds(start.y, target.y, margin, tall);
    let (lz, hz) = axis_bounds(start.z, target.z, margin, wide);
    (BlockPos { x: lx, y: ly, z: lz }, BlockPos { x: hx, y: hy, z: hz })
}

fn at_least(n: i32, floor: i32) -> (m: i32)
    ensures
        m == arith::max_int(n as int, floor as int),
{
    if n >= floor {
        n
    } else {
        floor
    }
}

pub fn snapshot_bounds(start: BlockPos, target: BlockPos, settings: &PathfinderSettings) -> (
    bounds: (BlockPos, BlockPos))
    ensures
        bounds == leg_area(start, target, *settings),
{
    let margin: i32 = at_least(settings.snapshot_margin, 0);
    let wide: i32 = at_least(settings.snapshot_max_span_xz, 1);
    let tall: i32 = at_least(settings.snapshot_max_span_y, 1);
    let (lx, hx) = axis(start.x, target.x, margin, wide);
    let (ly, hy) = axis(start.y, target.y, margin, tall);
    let (lz, hz) = axis(start.z, target.z, margin, wide);
    (BlockPos::new(lx, ly, lz), BlockPos::new(hx, hy, hz))
}

/// No axis of a leg's area is longer than its cap, and a margin within the cap
/// keeps the start inside.
pub proof fn leg_areas_are_bounded(start: i32, target: i32, margin: int, max_span: int)
    requires
        0 <= margin,
        1 <= max_span,
    ensures
        axis_bounds(start, target, margin, max_span).1 - axis_bounds(
            start,
            target,
            margin,
            max_span,
        ).0 <= max_span,
        margin <= max_span ==> axis_bounds(start, target, margin, max_span).0 <= start
            <= axis_bounds(start, target, margin, max_span).1,
{
}

/// The lowest coordinates among a position and some nodes.
pub open spec fn lowest(feet: BlockPos, nodes: Seq<PathNode>) -> BlockPos
    decreases nodes.len(),
{
    if nodes.len() == 0 {
        feet
    } else {
        let rest = lowest(feet, nodes.drop_last());
        let pos = nodes.last().pos;
        BlockPos {
            x: if pos.x < rest.x { pos.x } else { rest.x },
            y: if pos.y < rest.y { pos.y } else { rest.y },
            z: if pos.z < rest.z { pos.z } else { rest.z },
        }
    }
}

/// The highest coordinates among a position and some nodes.
pub open spec fn highest(feet: BlockPos, nodes: Seq<PathNode>) -> BlockPos
    decreases nodes.len(),
{
    if nodes.len() == 0 {
        feet
    } else {
        let rest = highest(feet, nodes.drop_last());
        let pos = nodes.last().pos;
        BlockPos {
            x: if pos.x > rest.x { pos.x } else { rest.x },
            y: if pos.y > rest.y { pos.y } else { rest.y },
            z: if pos.z > rest.z { pos.z } else { rest.z },
        }
    }
}

/// The nodes a follower may look at: from the one it approaches as far as it
/// may skip.
pub open spec fn looked_at(nodes: Seq<PathNode>, index: int, skip: int) -> Seq<PathNode> {
    let first = arith::min_int(index, nodes.len() - 1);
    let last = arith::min_int(first + skip, nodes.len() - 1);
    nodes.subrange(first, last + 1)
}

/// How far around itself a follower looks: its lava clearance and one more.
pub open spec fn look_margin(policy: LavaPolicy) -> int {
    match policy {
        LavaPolicy::Forbidden { clearance } => arith::max_int(
            arith::min_int(clearance as int, MAX_LAVA_SCAN_RADIUS as int),
            0,
        ) + 1,
        LavaPolicy::Penalized => 1,
    }
}

/// The corners of the area a follower checks before each tick. Without a path
/// it is the block of the feet.
pub open spec fn follow_area(
    feet: BlockPos,
    nodes: Seq<PathNode>,
    index: int,
    settings: FollowerSettings,
) -> (BlockPos, BlockPos) {
    if nodes.len() == 0 {
        (feet, feet)
    } else {
        let seen = looked_at(nodes, index, settings.max_los_skip as int);
        let margin = look_margin(settings.lava_policy);
        (
            world::shift(lowest(feet, seen), -margin, -margin, -margin),
            world::shift(highest(feet, seen), margin, margin, margin),
        )
    }
}

/// Every block within the margin of a node that the follower looks at, or of
/// its feet, is in the checked area.
pub proof fn looked_at_blocks_are_checked(
    feet: BlockPos,
    nodes: Seq<PathNode>,
    index: int,
    settings: FollowerSettings,
    centre: BlockPos,
    pos: BlockPos,
)
    requires
        nodes.len() > 0,
        centre == feet || exists|i: int|
            0 <= i < looked_at(nodes, index, settings.max_los_skip as int).len() && (
            #[trigger] looked_at(nodes, index, settings.max_los_skip as int)[i]).pos == centre,
        arith::abs_int(pos.x - centre.x) <= look_margin(settings.lava_policy),
        arith::abs_int(pos.y - centre.y) <= look_margin(settings.lava_policy),
        arith::abs_int(pos.z - centre.z) <= look_margin(settings.lava_policy),
    ensures
        world::in_box(
            follow_area(feet, nodes, index, settings).0,
            follow_area(feet, nodes, index, settings).1,
            pos,
        ),
{
    lemma_hull(feet, looked_at(nodes, index, settings.max_los_skip as int), centre);
}

proof fn lemma_hull(feet: BlockPos, nodes: Seq<PathNode>, centre: BlockPos)
    requires
        centre == feet || exists|i: int|
            0 <= i < nodes.len() && (#[trigger] nodes[i]).pos == centre,
    ensures
        world::in_box(lowest(feet, nodes), highest(feet, nodes), centre),
    decreases nodes.len(),
{
    if nodes.len() > 0 {
        let rest = nodes.drop_last();
        if centre != nodes.last().pos {
            if centre != feet {
                let i = choose|i: int| 0 <= i < nodes.len() && (#[trigger] nodes[i]).pos == centre;
                assert(rest[i].pos == centre);
            }
            lemma_hull(feet, rest, centre);
        }
    }
}

pub fn follower_snapshot_bounds(
    feet: BlockPos,
    path: &Path,
    index: usize,
    settings: &FollowerSettings,
) -> (bounds: (BlockPos, BlockPos))
    ensures
        bounds == follow_area(feet, path.nodes@, index as int, *settings),
{
    let count: usize = path.nodes.len();
    if count == 0 {
        return (feet, feet);
    }
    let first: usize = if index < count {
        index
    } else {
        count - 1
    };
    let last: usize = if settings.max_los_skip < count - first {
        first + settings.max_los_skip
    } else {
        count - 1
    };
    let mut low = feet;
    let mut high = feet;
    let mut i: usize = first;
    assert(path.nodes@.subrange(first as int, first as int) =~= Seq::empty());
    while i <= last
        invariant
            first <= i <= last + 1,
            last < count,
            count == path.nodes@.len(),
            low == lowest(feet, path.nodes@.subrange(first as int, i as int)),
            high == highest(feet, path.nodes@.subrange(first as int, i as int)),
        decreases last + 1 - i,
    {
        let pos = path.nodes[i].pos;
        proof {
            let seen = path.nodes@.subrange(first as int, i + 1);
            assert(seen.drop_last() =~= path.nodes@.subrange(first as int, i as int));
            assert(seen.last().pos == pos);
        }
        low =
        BlockPos::new(
            if pos.x < low.x { pos.x } else { low.x },
            if pos.y < low.y { pos.y } else { low.y },
            if pos.z < low.z { pos.z } else { low.z },
        );
        high =
        BlockPos::new(
            if pos.x > high.x { pos.x } else { high.x },
            if pos.y > high.y { pos.y } else { high.y },
            if pos.z > high.z { pos.z } else { high.z },
        );
        i += 1;
    }
    let clearance: i32 = match settings.lava_policy {
        LavaPolicy::Forbidden { clearance } => if clearance < 0 {
            0
        } else if clearance > MAX_LAVA_SCAN_RADIUS {
            MAX_LAVA_SCAN_RADIUS
        } else {
            clearance
        },
        LavaPolicy::Penalized => 0,
    };
    let margin: i32 = clearance + 1;
    proof {
        assert(path.nodes@.subrange(first as int, i as int) =~= looked_at(
            path.nodes@,
            index as int,
            settings.max_los_skip as int,
        ));
    }
    (offset(low, -margin, -margin, -margin), offset(high, margin, margin, margin))
}

/// The Manhattan distance of two positions.
pub open spec fn manhattan(a: BlockPos, b: BlockPos) -> int {
    arith::abs_int(a.x - b.x) + arith::abs_int(a.y - b.y) + arith::abs_int(a.z - b.z)
}

pub fn distance_between(a: BlockPos, b: BlockPos) -> (distance: u64)
    ensures
        distance == manhattan(a, b),
{
    abs_diff_i32(a.x, b.x) as u64 + abs_diff_i32(a.y, b.y) as u64 + abs_diff_i32(a.z, b.z) as u64
}

/// Whether feet in a block are as close to a goal as the planner asked for.
pub fn position_reaches_goal(feet: BlockPos, goal: BlockPos, tolerance: i32) -> (r: bool)
    ensures
        r == (manhattan(feet, goal) <= arith::max_int(tolerance as int, 0)),
{
    let reach: u64 = if tolerance < 0 {
        0
    } else {
        tolerance as u64
    };
    distance_between(feet, goal) <= reach
}

/// How far a goal is moved sideways at most.
pub const SNAP_RADIUS: i32 = 4;

/// How far a goal is moved up or down at most. A goal's height is often a
/// guess, while its column is what was meant.
pub const SNAP_RADIUS_Y: i32 = 192;

/// The number of places tried around a goal.
pub const SNAP_PLACES: usize = 31_185;

/// The displacement tried at a turn: from the lowest layer up, and through each
/// layer by `x`, then `z`.
pub open spec fn snap_step(turn: int) -> (int, int, int) {
    (
        (turn / 9) % 9 - SNAP_RADIUS,
        turn / 81 - SNAP_RADIUS_Y,
        turn % 9 - SNAP_RADIUS,
    )
}

pub open spec fn snap_place(goal: BlockPos, turn: int) -> BlockPos {
    let (dx, dy, dz) = snap_step(turn);
    world::shift(goal, dx, dy, dz)
}

/// How bad a displacement is. Sideways moves end up somewhere else entirely, so
/// they count four times.
pub open spec fn snap_score(turn: int) -> int {
    let (dx, dy, dz) = snap_step(turn);
    (arith::abs_int(dx) + arith::abs_int(dz)) * 4 + arith::abs_int(dy)
}

/// Whether the place tried at a turn is the one to choose among the first
/// `turns`: it can be stood in, none that can is less bad, and it comes first
/// among those that are equally bad.
pub open spec fn snaps_at(terrain: Terrain, goal: BlockPos, turns: int, turn: int) -> bool {
    &&& 0 <= turn < turns
    &&& terrain.stands(snap_place(goal, turn))
    &&& forall|other: int|
        0 <= other < turns && terrain.stands(#[trigger] snap_place(goal, other)) ==> snap_score(
            turn,
        ) < snap_score(other) || (snap_score(turn) == snap_score(other) && turn <= other)
}

/// The nearest block to `goal` that can be stood in, vertically before
/// horizontally.
///
/// A goal outside `lo..=hi` is a goal nothing is known about: moving it would
/// land where the captured area ends rather than where the world does.
pub fn snap_to_standable<W: WorldView + ?Sized>(
    world: &W,
    goal: BlockPos,
    lo: BlockPos,
    hi: BlockPos,
) -> (place: Option<BlockPos>)
    ensures
        match place {
            Some(pos) => {
                &&& world::in_box(lo, hi, goal)
                &&& world.terrain().stands(pos)
                &&& if world.terrain().stands(goal) {
                    pos == goal
                } else {
                    exists|turn: int| #[trigger]
                        snaps_at(world.terrain(), goal, SNAP_PLACES as int, turn) && pos
                            == snap_place(goal, turn)
                }
            },
            None => !world::in_box(lo, hi, goal) || (!world.terrain().stands(goal) && forall|
                turn: int,
            |
                0 <= turn < SNAP_PLACES ==> !world.terrain().stands(
                    #[trigger] snap_place(goal, turn),
                )),
        },
{
    if goal.y < lo.y || goal.y > hi.y || goal.x < lo.x || goal.x > hi.x || goal.z < lo.z || goal.z
        > hi.z {
        return None;
    }
    if world.standable(goal) {
        return Some(goal);
    }
    let ghost terrain = world.terrain();
    let mut best: Option<(i32, BlockPos)> = None;
    let ghost mut chosen: int = -1;
    let mut turn: usize = 0;
    while turn < SNAP_PLACES
        invariant
            terrain == world.terrain(),
            turn <= SNAP_PLACES,
            match best {
                Some((score, pos)) => {
                    &&& snaps_at(terrain, goal, turn as int, chosen)
                    &&& score == snap_score(chosen)
                    &&& pos == snap_place(goal, chosen)
                },
                None => forall|other: int|
                    0 <= other < turn ==> !terrain.stands(#[trigger] snap_place(goal, other)),
            },
        decreases SNAP_PLACES - turn,
    {
        let dx: i32 = ((turn / 9) % 9) as i32 - SNAP_RADIUS;
        let dy: i32 = (turn / 81) as i32 - SNAP_RADIUS_Y;
        let dz: i32 = (turn % 9) as i32 - SNAP_RADIUS;
        let candidate = offset(goal, dx, dy, dz);
        assert(candidate == snap_place(goal, turn as int));
        if world.standable(candidate) {
            let sideways: i32 = (if dx < 0 {
                -dx
            } else {
                dx
            }) + (if dz < 0 {
                -dz
            } else {
                dz
            });
            let score: i32 = sideways * 4 + (if dy < 0 {
                -dy
            } else {
                dy
            });
            assert(score == snap_score(turn as int));
            let better: bool = match best {
                Some((best_score, _)) => score < best_score,
                None => true,
            };
            if better {
                best = Some((score, candidate));
                proof {
                    chosen = turn as int;
                }
            }
        }
        turn += 1;
    }
    match best {
        Some((_, pos)) => Some(pos),
        None => None,
    }
}

} // verus!
