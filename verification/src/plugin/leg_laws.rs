//! What a leg is planned in, with and towards.
use vstd::prelude::*;

use crate::adaptive::context::ObservationContext;
use crate::adaptive::model::AdaptiveMode;
use crate::arith;
use crate::local::astar;
use crate::local::goal;
use crate::local::goal::{BlockGoal, Goal};
use crate::local::rules::step_laws;
use crate::local::tree;
use crate::local::world;
use crate::local::world::{SnapshotError, Terrain, WorldSnapshot};
use crate::plugin::bounds;
use crate::plugin::legs;
use crate::plugin::legs::{AdaptiveLegSeed, PlanLeg, PlanResult};
use crate::plugin::memory;
use crate::plugin::settings;
use crate::plugin::settings::{
    AdaptivePathfinderSettings, NavigationRequest, NavigationStatus, PathfinderSettings,
};
use crate::pos::BlockPos;
use crate::text;
use crate::types::{Cost, PathNode};

verus! {

/// Whether two blocks lie within `radius` of each other along every axis.
pub open spec fn within(a: BlockPos, b: BlockPos, radius: int) -> bool {
    &&& -radius <= a.x - b.x <= radius
    &&& -radius <= a.y - b.y <= radius
    &&& -radius <= a.z - b.z <= radius
}

/// A failure charges every block within two of it once, on top of what it cost
/// before, and leaves every other block as it was.
pub proof fn failures_charge_their_surroundings(
    before: Map<BlockPos, Cost>,
    at: BlockPos,
    after: Map<BlockPos, Cost>,
    pos: BlockPos,
)
    requires
        memory::blamed(before, at, memory::AVOID_BLOCKS as int, after),
        step_laws::inland(at),
    ensures
        ({
            let was = if before.contains_key(pos) {
                before[pos] as int
            } else {
                0
            };
            &&& within(pos, at, 2) ==> after.contains_key(pos) && after[pos] == arith::min_int(
                was + 800,
                u32::MAX as int,
            )
            &&& !within(pos, at, 2) ==> (after.contains_key(pos) <==> before.contains_key(pos))
            &&& !within(pos, at, 2) && before.contains_key(pos) ==> after[pos] == before[pos]
        }),
{
    memory::blame_charges_the_neighbourhood_once(at, pos);
    let known = after.contains_key(pos);
}

/// The area of a leg spans from the start to the target and a margin beyond
/// both. An axis that would be longer than its cap is as long as the cap, keeps
/// the margin behind the start, and is cut short towards the target.
pub proof fn areas_reach_towards_the_target(start: i32, target: i32, margin: int, max_span: int)
    requires
        0 <= margin <= 1_000_000,
        1 <= max_span <= 1_000_000,
        -1_000_000_000 <= start <= 1_000_000_000,
        -1_000_000_000 <= target <= 1_000_000_000,
    ensures
        ({
            let (low, high) = bounds::axis_bounds(start, target, margin, max_span);
            let apart = arith::abs_int(target - start);
            &&& apart + 2 * margin <= max_span && start <= target ==> low == start - margin && high
                == target + margin
            &&& apart + 2 * margin <= max_span && start >= target ==> low == target - margin
                && high == start + margin
            &&& apart + 2 * margin > max_span && start <= target ==> low == start - margin && high
                == low + max_span
            &&& apart + 2 * margin > max_span && start > target ==> high == start + margin && low
                == high - max_span
        }),
{
}

/// The turn at which a displacement is tried.
pub open spec fn turn_for(dx: int, dy: int, dz: int) -> int {
    (dy + 192) * 81 + (dx + 4) * 9 + (dz + 4)
}

/// A goal that cannot be stood in is moved to the best place around it that
/// can: no block within four sideways and a hundred and ninety-two up or down
/// holds the body at a lower price, where a block sideways costs as much as
/// four up or down.
pub proof fn goals_move_to_the_best_place(
    terrain: Terrain,
    goal: BlockPos,
    turn: int,
    dx: int,
    dy: int,
    dz: int,
)
    requires
        bounds::snaps_at(terrain, goal, bounds::SNAP_PLACES as int, turn),
        step_laws::inland(goal),
        -4 <= dx <= 4,
        -192 <= dy <= 192,
        -4 <= dz <= 4,
        terrain.stands(
            BlockPos {
                x: (goal.x + dx) as i32,
                y: (goal.y + dy) as i32,
                z: (goal.z + dz) as i32,
            },
        ),
    ensures
        ({
            let place = bounds::snap_place(goal, turn);
            let price = 4 * (arith::abs_int(place.x - goal.x) + arith::abs_int(place.z - goal.z))
                + arith::abs_int(place.y - goal.y);
            &&& terrain.stands(place)
            &&& price <= 4 * (arith::abs_int(dx) + arith::abs_int(dz)) + arith::abs_int(dy)
        }),
{
    let other = turn_for(dx, dy, dz);
    assert(0 <= other < bounds::SNAP_PLACES);
    assert(other / 81 == dy + 192);
    assert(other / 9 == (dy + 192) * 9 + dx + 4);
    assert((other / 9) % 9 == dx + 4);
    assert(other % 9 == dz + 4);
    assert(bounds::snap_step(other) == (dx, dy, dz));
    assert(bounds::snap_place(goal, other) == (BlockPos {
        x: (goal.x + dx) as i32,
        y: (goal.y + dy) as i32,
        z: (goal.z + dz) as i32,
    }));
    assert(terrain.stands(bounds::snap_place(goal, other)));
    let (sx, sy, sz) = bounds::snap_step(turn);
    assert(-192 <= sy <= 192) by {
        assert(0 <= turn / 81 <= 384);
    }
}

/// A goal that can be stood in, or lies outside of what is known, stays where
/// it is.
pub proof fn standable_goals_stay(
    terrain: Terrain,
    goal: BlockPos,
    lo: BlockPos,
    hi: BlockPos,
    target: BlockPos,
)
    requires
        legs::snapped(terrain, goal, lo, hi, target),
        terrain.stands(goal) || goal.x < lo.x || goal.x > hi.x || goal.y < lo.y || goal.y > hi.y
            || goal.z < lo.z || goal.z > hi.z,
    ensures
        target == goal,
{
}

/// A leg is planned with what is set, but for its own memory, budget and seed,
/// and for a drop no deeper than both the settings and the body allow.
pub proof fn legs_respect_the_body(
    config: PathfinderSettings,
    request: NavigationRequest,
    leg: PlanLeg,
    budget_ms: u64,
)
    ensures
        ({
            let context = legs::tuned(config, request, leg, budget_ms);
            &&& context.max_fall <= config.planner.max_fall
            &&& context.max_fall <= leg.fall_limit
            &&& context.max_fall == config.planner.max_fall || context.max_fall == leg.fall_limit
            &&& context.avoid@ == leg.avoid@
            &&& context.time_budget_ms == budget_ms
            &&& context.costs == config.planner.costs
            &&& context.goal_tolerance == config.planner.goal_tolerance
            &&& context.lava_policy == config.planner.lava_policy
            &&& context.water_policy == config.planner.water_policy
            &&& context.max_expansions == config.planner.max_expansions
        }),
{
}

/// No two legs of a journey are searched with the same seed, so that planning
/// again from the same place may come to another path.
pub proof fn legs_are_seeded_apart(path_seed: u64, a: u32, b: u32)
    requires
        a != b,
    ensures
        legs::leg_seed(path_seed, a) != legs::leg_seed(path_seed, b),
{
    let m: int = 0x1_0000_0000_0000_0000;
    let c: int = 0x9E37_79B9_7F4A_7C15;
    // The inverse of the step between seeds.
    let d: int = 17_428_512_612_931_826_493;
    let q: int = 10_771_413_168_148_108_919;
    assert(c * d == 1 + q * m);
    let x = (a as u64).wrapping_mul(legs::LEG_SEED_STEP);
    let y = (b as u64).wrapping_mul(legs::LEG_SEED_STEP);
    assert(x == (a * c) % m);
    assert(y == (b * c) % m);
    if legs::leg_seed(path_seed, a) == legs::leg_seed(path_seed, b) {
        assert(x == y);
        let i = (a * c) / m;
        let j = (b * c) / m;
        assert(a * c == i * m + x) by (nonlinear_arith)
            requires
                x == (a * c) % m,
                i == (a * c) / m,
                m > 0,
        ;
        assert(b * c == j * m + y) by (nonlinear_arith)
            requires
                y == (b * c) % m,
                j == (b * c) / m,
                m > 0,
        ;
        let k = i - j;
        let gap = a - b;
        assert(gap * c == k * m) by (nonlinear_arith)
            requires
                a * c == i * m + x,
                b * c == j * m + y,
                x == y,
                k == i - j,
                gap == a - b,
        ;
        let n = k * d - gap * q;
        assert(gap == n * m) by (nonlinear_arith)
            requires
                gap * c == k * m,
                c * d == 1 + q * m,
                n == k * d - gap * q,
        ;
        assert(n == 0) by (nonlinear_arith)
            requires
                gap == n * m,
                -0xffff_ffff <= gap <= 0xffff_ffff,
                m == 0x1_0000_0000_0000_0000,
        ;
        assert(gap == 0) by (nonlinear_arith)
            requires
                gap == n * m,
                n == 0,
        ;
    }
}

/// A planned leg starts where it was asked to and says that it reached its goal
/// only where it ends near enough to it.
#[verifier::spinoff_prover]
#[verifier::rlimit(40)]
pub proof fn legs_report_what_they_reach(
    request: NavigationRequest,
    start: BlockPos,
    captured: Result<WorldSnapshot, SnapshotError>,
    spent_nanos: u128,
    config: PathfinderSettings,
    leg: PlanLeg,
    reading: u128,
    result: PlanResult,
)
    requires
        legs::same_leg(result, request, start, leg),
        legs::leg_answer(request, start, captured, spent_nanos, config, leg, reading, result),
    ensures
        result.reached_goal ==> result.plan is Some,
        result.plan matches Some(plan) ==> {
            let nodes = plan.route().nodes@;
            let end = nodes.last().pos;
            let target = result.target;
            let apart = arith::abs_int(end.x - target.x) + arith::abs_int(end.y - target.y)
                + arith::abs_int(end.z - target.z);
            &&& nodes.len() > 0
            &&& nodes[0].pos == start && nodes[0].reached_by is Start
            &&& result.reached_goal ==> apart <= arith::max_int(
                config.planner.goal_tolerance as int,
                0,
            )
            &&& plan.motion().len() + 1 == nodes.len()
            &&& result.observation_context is Some <==> leg.adaptive is Some
        },
        captured is Err ==> result.plan is None && result.target == request.goal.place(),
        spent_nanos >= config.planner.time_budget_ms * 1_000_000 ==> result.plan is None,
        spent_nanos + reading >= config.planner.time_budget_ms * 1_000_000 ==> result.plan is None,
{
    if let Some(plan) = result.plan {
        let snapshot = captured->Ok_0;
        let budget_ms = legs::budget_left(
            config.planner.time_budget_ms,
            spent_nanos + reading,
        )->0;
        let problem = legs::captured_problem(snapshot, config, request, leg, budget_ms);
        let nodes = plan.route().nodes@;
        goal::goals_accept_what_is_near(
            result.target,
            problem.ctx.goal_tolerance,
            nodes.last().pos,
        );
        let hops = choose|hops: Seq<crate::local::graph_model::Hop>| #[trigger]
            tree::realizes(problem, start, nodes, hops);
        assert(tree::realizes(problem, start, nodes, hops));
        if nodes.len() > 1 {
            assert(tree::realizes_step(problem, start, nodes, hops, nodes.len() - 1));
            assert(hops.take(hops.len() as int) =~= hops);
        }
    }
}

/// Waiting for a journey is over exactly where it has arrived or failed, where
/// another request took its place, and where it was cancelled and nothing is
/// under way.
pub proof fn waits_end_with_their_journey(
    status: NavigationStatus,
    requested: Option<u64>,
    generation: u64,
)
    ensures
        ({
            let over = settings::settled(status, requested, generation);
            let ended = status == (NavigationStatus::Arrived { generation }) || status == (
            NavigationStatus::Failed { generation });
            let replaced = requested matches Some(current) && current != generation;
            let cancelled = requested is None && status is Idle;
            &&& over is Some <==> ended || replaced || cancelled
            &&& ended ==> over == Some(status)
            &&& !ended && replaced ==> over == Some(NavigationStatus::Failed { generation })
            &&& !ended && cancelled ==> over == Some(NavigationStatus::Idle)
        }),
{
}

/// A leg learns only where learning is on, its profile is about this very body,
/// and its settings have names; and it learns under exactly those names.
pub proof fn legs_learn_only_under_a_profile(
    adaptive: AdaptivePathfinderSettings,
    planner_hash: u64,
    control_hash: u64,
    costs_hash: u64,
)
    ensures
        ({
            let regime = legs::regime_of(adaptive, planner_hash, control_hash, costs_hash);
            &&& regime is Some <==> {
                &&& adaptive.learner.mode != AdaptiveMode::Disabled
                &&& adaptive.profile matches Some(key) && text::is_context_text(key.server@)
                    && text::is_context_text(key.dimension@) && text::is_context_text(
                    key.environment@,
                ) && key.capability_hash == adaptive.actor_capability_hash
                &&& text::is_context_text(adaptive.build_id@)
                &&& planner_hash != 0
                &&& control_hash != 0
                &&& costs_hash != 0
            }
            &&& regime matches Some(found) ==> {
                &&& found.build_id == adaptive.build_id@
                &&& found.planner_settings_hash == planner_hash
                &&& found.control_settings_hash == control_hash
                &&& found.baseline_costs_hash == costs_hash
                &&& found.actor_capability_hash == adaptive.actor_capability_hash
            }
        }),
{
}

/// What is observed on a leg is put down to that very leg of that very journey,
/// under the profile and settings it was planned with, and can be learned from.
pub proof fn observations_are_put_down_to_their_leg(
    context: ObservationContext,
    seed: AdaptiveLegSeed,
    request: NavigationRequest,
    journey_id: u64,
    legs: u32,
    costs_hash: u64,
    created_unix_ms: u64,
)
    requires
        legs::describes_leg(context, seed, request, journey_id, legs, costs_hash, created_unix_ms),
    ensures
        context.profile@ == seed.key@,
        context.journey_id == journey_id,
        context.generation == request.generation,
        context.leg == legs,
        context.world_revision == seed.world_revision,
        context.model_revision == seed.model.model_revision,
        seed.regime.baseline_costs_hash == costs_hash ==> context.regime_view() == seed.regime@,
        journey_id != 0 && costs_hash != 0 && seed.key@.valid() && seed.regime@.valid_for(seed.key@)
            ==> context.valid(),
{
}

/// The legs of a journey have plan revisions of their own.
pub proof fn legs_have_their_own_revisions(generation: u64, one: u32, other: u32)
    requires
        legs::plan_revision(generation, one) == legs::plan_revision(generation, other),
    ensures
        one == other,
{
    let turned = (generation << 17u64) | (generation >> 47u64);
    if turned + one > u64::MAX {
        assert(turned.wrapping_add(one as u64) == turned + one - u64::MAX - 1);
    }
    if turned + other > u64::MAX {
        assert(turned.wrapping_add(other as u64) == turned + other - u64::MAX - 1);
    }
}

/// The area a follower looks at is no wider than what it looks at: each of its
/// sides is a margin from the feet or from a node.
pub proof fn followers_look_no_farther_than_they_must(
    feet: BlockPos,
    nodes: Seq<PathNode>,
    corner: BlockPos,
)
    requires
        corner == bounds::lowest(feet, nodes) || corner == bounds::highest(feet, nodes),
    ensures
        corner.x == feet.x || exists|i: int|
            0 <= i < nodes.len() && (#[trigger] nodes[i]).pos.x == corner.x,
        corner.y == feet.y || exists|i: int|
            0 <= i < nodes.len() && (#[trigger] nodes[i]).pos.y == corner.y,
        corner.z == feet.z || exists|i: int|
            0 <= i < nodes.len() && (#[trigger] nodes[i]).pos.z == corner.z,
    decreases nodes.len(),
{
    if nodes.len() > 0 {
        let rest = nodes.drop_last();
        let inner = if corner == bounds::lowest(feet, nodes) {
            bounds::lowest(feet, rest)
        } else {
            bounds::highest(feet, rest)
        };
        followers_look_no_farther_than_they_must(feet, rest, inner);
        let last = nodes.len() - 1;
        assert(nodes[last] == nodes.last());
        if corner.x != nodes.last().pos.x && corner.x != feet.x {
            let i = choose|i: int| 0 <= i < rest.len() && (#[trigger] rest[i]).pos.x == inner.x;
            assert(nodes[i].pos.x == corner.x);
        }
        if corner.y != nodes.last().pos.y && corner.y != feet.y {
            let i = choose|i: int| 0 <= i < rest.len() && (#[trigger] rest[i]).pos.y == inner.y;
            assert(nodes[i].pos.y == corner.y);
        }
        if corner.z != nodes.last().pos.z && corner.z != feet.z {
            let i = choose|i: int| 0 <= i < rest.len() && (#[trigger] rest[i]).pos.z == inner.z;
            assert(nodes[i].pos.z == corner.z);
        }
    }
}

} // verus!
