//! Where a journey went wrong.
use std::sync::Arc;

use vstd::prelude::*;

use crate::arith;
use crate::local::world;
use crate::local::world::offset;
use crate::pos::BlockPos;
use crate::pos_map::PosMap;
use crate::types::Cost;

verus! {

/// Toll added to a block each time a leg dies on it, in walk-cost units where
/// one flat block is 10. The first failure is worth an 80-block detour, and
/// repeats escalate.
pub const AVOID_PENALTY: Cost = 800;

/// Radius of the cube charged around a failed block: the bot rarely wedges on
/// the exact block the follower reports.
pub const AVOID_RADIUS: i32 = 2;

/// The number of blocks in that cube.
pub const AVOID_BLOCKS: usize = 125;

/// Blocks one journey has already failed on, and what they now cost. A new
/// request starts with an empty memory.
pub struct AvoidMemory {
    pub spots: PosMap<Cost>,
}

/// The displacement charged at a turn.
pub open spec fn blame_step(turn: int) -> (int, int, int) {
    (turn / 25 - AVOID_RADIUS, (turn / 5) % 5 - AVOID_RADIUS, turn % 5 - AVOID_RADIUS)
}

pub open spec fn blame_place(at: BlockPos, turn: int) -> BlockPos {
    let (dx, dy, dz) = blame_step(turn);
    world::shift(at, dx, dy, dz)
}

/// How often a place is charged in the first `turns`. At the end of the
/// coordinate range several displacements meet.
pub open spec fn charges(at: BlockPos, pos: BlockPos, turns: int) -> int
    decreases turns,
{
    if turns <= 0 {
        0
    } else {
        charges(at, pos, turns - 1) + if blame_place(at, turns - 1) == pos {
            1int
        } else {
            0
        }
    }
}

/// What a remembered place costs.
pub open spec fn toll(spots: Map<BlockPos, Cost>, pos: BlockPos) -> Cost {
    if spots.contains_key(pos) {
        spots[pos]
    } else {
        0
    }
}

/// Whether `after` holds the places of `before` and those charged around `at`,
/// each with its charges added.
pub open spec fn blamed(
    before: Map<BlockPos, Cost>,
    at: BlockPos,
    turns: int,
    after: Map<BlockPos, Cost>,
) -> bool {
    forall|pos: BlockPos|
        {
            &&& #[trigger] after.contains_key(pos) <==> before.contains_key(pos) || charges(
                at,
                pos,
                turns,
            ) > 0
            &&& toll(after, pos) == arith::clamp_u32(
                toll(before, pos) + AVOID_PENALTY * charges(at, pos, turns),
            )
        }
}

proof fn lemma_charges_grow(at: BlockPos, pos: BlockPos, turns: int)
    ensures
        charges(at, pos, turns) >= 0,
    decreases turns,
{
    if turns > 0 {
        lemma_charges_grow(at, pos, turns - 1);
    }
}

impl Default for AvoidMemory {
    fn default() -> (memory: AvoidMemory)
        ensures
            memory.spots@ == Map::<BlockPos, Cost>::empty(),
    {
        AvoidMemory { spots: PosMap::new() }
    }
}

impl AvoidMemory {
    /// Charges the blocks around a failure.
    pub fn blame(&mut self, at: BlockPos)
        ensures
            blamed(old(self).spots@, at, AVOID_BLOCKS as int, final(self).spots@),
    {
        let ghost before = self.spots@;
        let mut turn: usize = 0;
        while turn < AVOID_BLOCKS
            invariant
                turn <= AVOID_BLOCKS,
                blamed(before, at, turn as int, self.spots@),
            decreases AVOID_BLOCKS - turn,
        {
            let dx: i32 = (turn / 25) as i32 - AVOID_RADIUS;
            let dy: i32 = ((turn / 5) % 5) as i32 - AVOID_RADIUS;
            let dz: i32 = (turn % 5) as i32 - AVOID_RADIUS;
            let pos = offset(at, dx, dy, dz);
            assert(pos == blame_place(at, turn as int));
            let known: Cost = match self.spots.get(pos) {
                Some(cost) => *cost,
                None => 0,
            };
            let ghost earlier = self.spots@;
            self.spots.insert(pos, known.saturating_add(AVOID_PENALTY));
            proof {
                assert forall|other: BlockPos|
                    {
                        &&& #[trigger] self.spots@.contains_key(other) <==> before.contains_key(
                            other,
                        ) || charges(at, other, turn + 1) > 0
                        &&& toll(self.spots@, other) == arith::clamp_u32(
                            toll(before, other) + AVOID_PENALTY * charges(at, other, turn + 1),
                        )
                    } by {
                    lemma_charges_grow(at, other, turn as int);
                    assert(earlier.contains_key(other) <==> before.contains_key(other) || charges(
                        at,
                        other,
                        turn as int,
                    ) > 0);
                    assert(toll(earlier, other) == arith::clamp_u32(
                        toll(before, other) + AVOID_PENALTY * charges(at, other, turn as int),
                    ));
                    assert(AVOID_PENALTY * (charges(at, other, turn as int) + 1) == AVOID_PENALTY
                        * charges(at, other, turn as int) + AVOID_PENALTY) by (nonlinear_arith);
                }
            }
            turn += 1;
        }
    }

    /// A copy for a planner to keep.
    pub fn snapshot(&self) -> (copy: Arc<PosMap<Cost>>)
        ensures
            copy@ == self.spots@,
    {
        Arc::new(self.spots.duplicate())
    }
}

/// Away from the end of the coordinate range one failure charges every block
/// within the radius once, and no other block.
pub proof fn blame_charges_the_neighbourhood_once(at: BlockPos, pos: BlockPos)
    requires
        i32::MIN + AVOID_RADIUS <= at.x <= i32::MAX - AVOID_RADIUS,
        i32::MIN + AVOID_RADIUS <= at.y <= i32::MAX - AVOID_RADIUS,
        i32::MIN + AVOID_RADIUS <= at.z <= i32::MAX - AVOID_RADIUS,
    ensures
        charges(at, pos, AVOID_BLOCKS as int) == if arith::abs_int(pos.x - at.x) <= AVOID_RADIUS
            && arith::abs_int(pos.y - at.y) <= AVOID_RADIUS && arith::abs_int(pos.z - at.z)
            <= AVOID_RADIUS {
            1int
        } else {
            0
        },
{
    lemma_charged_once(at, pos, AVOID_BLOCKS as int);
}

/// The turn that charges a block within the radius.
spec fn turn_of(at: BlockPos, pos: BlockPos) -> int {
    (pos.x - at.x + AVOID_RADIUS) * 25 + (pos.y - at.y + AVOID_RADIUS) * 5 + (pos.z - at.z
        + AVOID_RADIUS)
}

proof fn lemma_charged_once(at: BlockPos, pos: BlockPos, turns: int)
    requires
        0 <= turns <= AVOID_BLOCKS,
        i32::MIN + AVOID_RADIUS <= at.x <= i32::MAX - AVOID_RADIUS,
        i32::MIN + AVOID_RADIUS <= at.y <= i32::MAX - AVOID_RADIUS,
        i32::MIN + AVOID_RADIUS <= at.z <= i32::MAX - AVOID_RADIUS,
    ensures
        charges(at, pos, turns) == if arith::abs_int(pos.x - at.x) <= AVOID_RADIUS
            && arith::abs_int(pos.y - at.y) <= AVOID_RADIUS && arith::abs_int(pos.z - at.z)
            <= AVOID_RADIUS && turn_of(at, pos) < turns {
            1int
        } else {
            0
        },
    decreases turns,
{
    if turns > 0 {
        lemma_charged_once(at, pos, turns - 1);
        let turn = turns - 1;
        assert(turn / 25 == (turn / 5) / 5);
    }
}

/// A charged block costs more than before, up to the end of the cost range,
/// and nothing becomes cheaper.
pub proof fn blame_only_adds(
    before: Map<BlockPos, Cost>,
    at: BlockPos,
    after: Map<BlockPos, Cost>,
    pos: BlockPos,
)
    requires
        blamed(before, at, AVOID_BLOCKS as int, after),
    ensures
        toll(after, pos) >= toll(before, pos),
        before.contains_key(pos) ==> after.contains_key(pos),
{
    lemma_charges_grow(at, pos, AVOID_BLOCKS as int);
    let _ = after.contains_key(pos);
}

} // verus!
