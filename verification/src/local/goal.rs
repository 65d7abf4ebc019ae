//! Destinations of a path search and the built-in lower bound.
use vstd::prelude::*;

use crate::arith;
use crate::arith::{abs_diff_i32, max_u32, min_u32, saturating_mul_u32};
use crate::local::moves::{Edge, MoveContext, MovementCosts};
use crate::pos::BlockPos;
use crate::types::Cost;

verus! {

/// A destination predicate for a path search.
///
/// Goals are deliberately separate from movement rules. A goal may supply an
/// admissible lower bound, but answering `None` is always correct and makes the
/// search use Dijkstra ordering. Implementations that answer `Some` must ensure
/// the value never exceeds the cheapest remaining path cost and is zero for
/// every position accepted by [`Goal::is_satisfied`].
///
/// [`Goal::progress_key`] is used only to choose a best-effort partial result.
/// It cannot affect the optimality of a completed path.
///
/// Every answer must remain stable while [`Goal::revision`] is stable.
pub trait Goal: Send + Sync {
    /// Whether `pos` completes the search. Unless said otherwise, nothing does.
    open spec fn accepts(&self, pos: BlockPos) -> bool {
        false
    }

    /// The goal's own lower bound on the cost from `pos`.
    open spec fn lower_bound(&self, pos: BlockPos, ctx: &MoveContext) -> Option<Cost> {
        None
    }

    /// The rank of `pos` as a partial result; smaller is better.
    open spec fn progress(&self, pos: BlockPos) -> u64 {
        u64::MAX
    }

    /// The revision of a goal that never changes. Unless said otherwise, a
    /// goal may change between any two looks at it.
    open spec fn settled_revision(&self) -> Option<u64> {
        None
    }

    fn is_satisfied(&self, pos: BlockPos) -> (r: bool)
        ensures
            r == self.accepts(pos),
    ;

    /// A guaranteed lower bound on the cost from `pos` to this goal.
    ///
    /// The planner also disables this value whenever any movement rule opts
    /// out of the built-in heuristic assumptions.
    fn heuristic_lower_bound(&self, pos: BlockPos, ctx: &MoveContext) -> (bound: Option<Cost>)
        ensures
            bound == self.lower_bound(pos, ctx),
    ;

    /// Smaller values represent better partial progress.
    fn progress_key(&self, pos: BlockPos) -> (key: u64)
        ensures
            key == self.progress(pos),
    ;

    /// Monotonic identity/version for goals backed by changing state.
    ///
    /// A changed value invalidates a resumed session before it does more work.
    fn revision(&self) -> (revision: u64)
        ensures
            self.settled_revision() matches Some(settled) ==> revision == settled,
    ;
}

/// How far `a` lies from `b` beyond a tolerance.
pub open spec fn gap_beyond(a: i32, b: i32, tolerance: int) -> int {
    arith::max_int(arith::abs_int(a - b) - tolerance, 0)
}

/// The cheapest way for any built-in move to advance one block sideways.
pub open spec fn sideways_unit(costs: MovementCosts) -> int {
    arith::min_int(
        arith::min_int(
            arith::min_int(
                arith::min_int(costs.cardinal_walk as int, costs.diagonal_walk as int),
                arith::min_int(costs.step as int, costs.jump as int),
            ),
            arith::min_int(
                arith::clamp_u32(costs.fall_base + costs.fall_per_block) as int,
                costs.parkour_per_block as int,
            ),
        ),
        arith::min_int(
            arith::min_int(costs.swim as int, costs.swim_exit as int),
            costs.climb as int,
        ),
    )
}

/// The cheapest way for any built-in move to gain one block of height.
pub open spec fn rising_unit(costs: MovementCosts) -> int {
    arith::min_int(
        arith::min_int(
            arith::min_int(costs.step as int, costs.jump as int),
            costs.climb as int,
        ),
        arith::min_int(costs.swim as int, costs.swim_exit as int),
    )
}

/// The cheapest way for any built-in move to lose one block of height.
pub open spec fn sinking_unit(costs: MovementCosts) -> int {
    arith::min_int(
        arith::min_int(costs.step as int, costs.climb as int),
        arith::min_int(costs.swim as int, costs.fall_per_block as int),
    )
}

/// A lower bound on the cost of reaching within `tolerance` of `goal`: sideways
/// and vertical estimates are combined with `max` because one move can advance
/// on both axes. Applying the tolerance to each axis is looser than Manhattan
/// tolerance, so the estimate stays admissible.
pub open spec fn block_bound(
    pos: BlockPos,
    goal: BlockPos,
    tolerance: int,
    costs: MovementCosts,
) -> int {
    arith::max_int(
        sideways_bound(pos, goal, tolerance, costs),
        vertical_bound(pos, goal, tolerance, costs),
    )
}

pub open spec fn sideways_bound(
    pos: BlockPos,
    goal: BlockPos,
    tolerance: int,
    costs: MovementCosts,
) -> int {
    arith::clamp_u32(
        sideways_unit(costs) * arith::max_int(
            gap_beyond(pos.x, goal.x, tolerance),
            gap_beyond(pos.z, goal.z, tolerance),
        ),
    ) as int
}

pub open spec fn vertical_bound(
    pos: BlockPos,
    goal: BlockPos,
    tolerance: int,
    costs: MovementCosts,
) -> int {
    arith::clamp_u32(
        (if pos.y < goal.y {
            rising_unit(costs)
        } else {
            sinking_unit(costs)
        }) * gap_beyond(pos.y, goal.y, tolerance),
    ) as int
}

fn block_heuristic(pos: BlockPos, goal: BlockPos, tolerance: i32, ctx: &MoveContext) -> (bound:
    Cost)
    requires
        tolerance >= 0,
    ensures
        bound == block_bound(pos, goal, tolerance as int, ctx.costs),
{
    let slack: u32 = tolerance as u32;
    let dx: u32 = abs_diff_i32(pos.x, goal.x).saturating_sub(slack);
    let dz: u32 = abs_diff_i32(pos.z, goal.z).saturating_sub(slack);
    let dy: u32 = abs_diff_i32(pos.y, goal.y).saturating_sub(slack);
    let costs = ctx.costs;
    let sideways: u32 = min_u32(
        min_u32(
            min_u32(
                min_u32(costs.cardinal_walk, costs.diagonal_walk),
                min_u32(costs.step, costs.jump),
            ),
            min_u32(
                costs.fall_base.saturating_add(costs.fall_per_block),
                costs.parkour_per_block,
            ),
        ),
        min_u32(min_u32(costs.swim, costs.swim_exit), costs.climb),
    );
    let vertical: u32 = if pos.y < goal.y {
        min_u32(
            min_u32(min_u32(costs.step, costs.jump), costs.climb),
            min_u32(costs.swim, costs.swim_exit),
        )
    } else {
        // Descending parkour pays this per dropped block but no fall base.
        min_u32(min_u32(costs.step, costs.climb), min_u32(costs.swim, costs.fall_per_block))
    };
    max_u32(saturating_mul_u32(sideways, max_u32(dx, dz)), saturating_mul_u32(vertical, dy))
}

/// The "within Manhattan tolerance of one block" destination.
#[derive(Clone, Copy, PartialEq, Eq, Structural, Debug)]
pub struct BlockGoal {
    target: BlockPos,
    tolerance: i32,
    revision: u64,
}

/// Block distance counted along all three axes.
pub open spec fn manhattan(a: BlockPos, b: BlockPos) -> int {
    arith::abs_int(a.x - b.x) + arith::abs_int(a.y - b.y) + arith::abs_int(a.z - b.z)
}

impl BlockGoal {
    #[verifier::type_invariant]
    spec fn wf(self) -> bool {
        self.tolerance >= 0
    }

    pub closed spec fn center(self) -> BlockPos {
        self.target
    }

    pub closed spec fn slack(self) -> int {
        if self.tolerance < 0 {
            0
        } else {
            self.tolerance as int
        }
    }

    pub closed spec fn version(self) -> u64 {
        self.revision
    }

    /// The goal within Manhattan distance `tolerance` of `target`.
    pub closed spec fn around(target: BlockPos, tolerance: i32) -> BlockGoal {
        BlockGoal {
            target,
            tolerance: if tolerance < 0 {
                0
            } else {
                tolerance
            },
            revision: 0,
        }
    }

    /// A tolerance is never negative.
    pub proof fn lemma_slack(self)
        ensures
            self.slack() >= 0,
    {
    }

    pub fn new(target: BlockPos, tolerance: i32) -> (goal: BlockGoal)
        ensures
            goal == BlockGoal::around(target, tolerance),
            goal.center() == target,
            goal.slack() == arith::max_int(tolerance as int, 0),
            goal.version() == 0,
    {
        BlockGoal {
            target,
            tolerance: if tolerance < 0 {
                0
            } else {
                tolerance
            },
            revision: 0,
        }
    }

    /// Attaches an application-owned revision to this immutable goal value.
    pub fn with_revision(self, revision: u64) -> (goal: BlockGoal)
        ensures
            goal.center() == self.center(),
            goal.slack() == self.slack(),
            goal.version() == revision,
    {
        proof {
            use_type_invariant(&self);
        }
        BlockGoal { target: self.target, tolerance: self.tolerance, revision }
    }

    pub fn target(&self) -> (target: BlockPos)
        ensures
            target == self.center(),
    {
        self.target
    }

    pub fn tolerance(&self) -> (tolerance: i32)
        ensures
            tolerance == self.slack(),
    {
        proof {
            use_type_invariant(self);
        }
        self.tolerance
    }

    fn distance(&self, pos: BlockPos) -> (n: u64)
        ensures
            n == manhattan(pos, self.center()),
    {
        abs_diff_i32(pos.x, self.target.x) as u64 + abs_diff_i32(pos.y, self.target.y) as u64
            + abs_diff_i32(pos.z, self.target.z) as u64
    }
}

impl Goal for BlockGoal {
    open spec fn accepts(&self, pos: BlockPos) -> bool {
        manhattan(pos, self.center()) <= self.slack()
    }

    open spec fn lower_bound(&self, pos: BlockPos, ctx: &MoveContext) -> Option<Cost> {
        Some(block_bound(pos, self.center(), self.slack(), ctx.costs) as Cost)
    }

    open spec fn progress(&self, pos: BlockPos) -> u64 {
        manhattan(pos, self.center()) as u64
    }

    open spec fn settled_revision(&self) -> Option<u64> {
        Some(self.version())
    }

    fn is_satisfied(&self, pos: BlockPos) -> (r: bool) {
        proof {
            use_type_invariant(self);
        }
        self.distance(pos) <= self.tolerance as u64
    }

    fn heuristic_lower_bound(&self, pos: BlockPos, ctx: &MoveContext) -> (bound: Option<Cost>) {
        proof {
            use_type_invariant(self);
        }
        Some(block_heuristic(pos, self.target, self.tolerance, ctx))
    }

    fn progress_key(&self, pos: BlockPos) -> (key: u64) {
        self.distance(pos)
    }

    fn revision(&self) -> (version: u64)
        ensures
            version == self.version(),
    {
        self.revision
    }
}

/// Whether a transition costs at least what the bound charges for the ground
/// it covers.
pub open spec fn pays_its_way(from: BlockPos, edge: Edge, costs: MovementCosts) -> bool {
    let to = edge.to;
    &&& edge.cost >= arith::clamp_u32(
        sideways_unit(costs) * arith::max_int(
            arith::abs_int(to.x - from.x),
            arith::abs_int(to.z - from.z),
        ),
    )
    &&& to.y > from.y ==> edge.cost >= arith::clamp_u32(rising_unit(costs) * (to.y - from.y))
    &&& to.y < from.y ==> edge.cost >= arith::clamp_u32(sinking_unit(costs) * (from.y - to.y))
}

proof fn lemma_clamped_triangle(unit: int, whole: int, part: int, rest: int)
    requires
        0 <= unit,
        0 <= part,
        0 <= rest,
        whole <= part + rest,
    ensures
        arith::clamp_u32(unit * whole) <= arith::clamp_u32(unit * part) + arith::clamp_u32(
            unit * rest,
        ),
{
    assert(unit * whole <= unit * part + unit * rest && 0 <= unit * part && 0 <= unit * rest)
        by (nonlinear_arith)
        requires
            0 <= unit,
            0 <= part,
            0 <= rest,
            whole <= part + rest,
    ;
}

/// The bound never drops by more than a paying transition costs.
pub proof fn bound_drops_by_at_most_the_cost(
    from: BlockPos,
    edge: Edge,
    goal: BlockPos,
    tolerance: int,
    costs: MovementCosts,
)
    requires
        pays_its_way(from, edge, costs),
        tolerance >= 0,
    ensures
        block_bound(from, goal, tolerance, costs) <= edge.cost + block_bound(
            edge.to,
            goal,
            tolerance,
            costs,
        ),
{
    let to = edge.to;
    let gap = |p: BlockPos|
        arith::max_int(gap_beyond(p.x, goal.x, tolerance), gap_beyond(p.z, goal.z, tolerance));
    let moved = arith::max_int(arith::abs_int(to.x - from.x), arith::abs_int(to.z - from.z));
    lemma_clamped_triangle(sideways_unit(costs), gap(from), moved, gap(to));
    let up = rising_unit(costs);
    let down = sinking_unit(costs);
    let high = gap_beyond(from.y, goal.y, tolerance);
    let left = gap_beyond(to.y, goal.y, tolerance);
    let climbed = arith::max_int(to.y - from.y, 0);
    let sunk = arith::max_int(from.y - to.y, 0);
    if from.y < goal.y {
        if to.y < goal.y {
            lemma_clamped_triangle(up, high, climbed, left);
        } else {
            lemma_clamped_triangle(up, high, climbed, 0);
            assert(up * 0 == 0) by (nonlinear_arith);
        }
        if climbed == 0 {
            assert(up * climbed == 0) by (nonlinear_arith)
                requires
                    climbed == 0,
            ;
        }
    } else {
        if to.y < goal.y {
            lemma_clamped_triangle(down, high, sunk, 0);
            assert(down * 0 == 0) by (nonlinear_arith);
        } else {
            lemma_clamped_triangle(down, high, sunk, left);
        }
        if sunk == 0 {
            assert(down * sunk == 0) by (nonlinear_arith)
                requires
                    sunk == 0,
            ;
        }
    }
}

/// The bound is zero wherever the goal accepts.
pub proof fn bound_is_zero_at_the_goal(
    pos: BlockPos,
    goal: BlockPos,
    tolerance: int,
    costs: MovementCosts,
)
    requires
        manhattan(pos, goal) <= tolerance,
    ensures
        block_bound(pos, goal, tolerance, costs) == 0,
{
    let s = sideways_unit(costs);
    let u = rising_unit(costs);
    let d = sinking_unit(costs);
    assert(s * 0 == 0 && u * 0 == 0 && d * 0 == 0) by (nonlinear_arith);
}

/// A goal around a block accepts exactly the positions whose distances along
/// the three axes add up to no more than the tolerance; a negative tolerance
/// accepts the block alone. Its progress is that distance.
pub proof fn goals_accept_what_is_near(target: BlockPos, tolerance: i32, pos: BlockPos)
    ensures
        ({
            let goal = BlockGoal::around(target, tolerance);
            let distance = arith::abs_int(pos.x - target.x) + arith::abs_int(pos.y - target.y)
                + arith::abs_int(pos.z - target.z);
            &&& goal.center() == target
            &&& goal.slack() == arith::max_int(tolerance as int, 0)
            &&& goal.accepts(pos) <==> distance <= tolerance || pos == target
            &&& goal.progress(pos) == distance
        }),
{
}

/// The bound charges for every block beyond the tolerance: along each axis at
/// least the cheapest step there is, as often as there are blocks to go.
pub proof fn bounds_charge_for_the_way(
    target: BlockPos,
    tolerance: i32,
    pos: BlockPos,
    ctx: &MoveContext,
    least: int,
    blocks: int,
)
    requires
        tolerance >= 0,
        least >= 0,
        least <= ctx.costs.cardinal_walk,
        least <= ctx.costs.diagonal_walk,
        least <= ctx.costs.step,
        least <= ctx.costs.jump,
        least <= ctx.costs.fall_per_block,
        least <= ctx.costs.parkour_per_block,
        least <= ctx.costs.swim,
        least <= ctx.costs.swim_exit,
        least <= ctx.costs.climb,
        blocks >= 0,
        least * blocks <= u32::MAX,
        blocks + tolerance <= arith::abs_int(pos.x - target.x) || blocks + tolerance
            <= arith::abs_int(pos.y - target.y) || blocks + tolerance <= arith::abs_int(
            pos.z - target.z,
        ),
    ensures
        BlockGoal::around(target, tolerance).lower_bound(pos, ctx) matches Some(bound) && least
            * blocks <= bound,
{
    let costs = ctx.costs;
    let sideways = arith::max_int(
        gap_beyond(pos.x, target.x, tolerance as int),
        gap_beyond(pos.z, target.z, tolerance as int),
    );
    let upright = gap_beyond(pos.y, target.y, tolerance as int);
    let unit = if pos.y < target.y {
        rising_unit(costs)
    } else {
        sinking_unit(costs)
    };
    let side = sideways_unit(costs);
    assert(least <= side && least <= unit);
    if blocks <= sideways {
        assert(least * blocks <= side * sideways) by (nonlinear_arith)
            requires
                0 <= least <= side,
                0 <= blocks <= sideways,
        ;
    } else {
        assert(least * blocks <= unit * upright) by (nonlinear_arith)
            requires
                0 <= least <= unit,
                0 <= blocks <= upright,
        ;
    }
}

} // verus!
