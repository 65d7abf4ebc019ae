//! What holds of every journey: where it ends, what a setback costs, and what
//! a tick may tell the body to do.
use vstd::prelude::*;

use crate::arith;
use crate::local::follower::FollowerDirective;
use crate::local::world::Terrain;
use crate::plugin::legs;
use crate::plugin::legs::PlanResult;
use crate::plugin::navigation;
use crate::plugin::navigation::{
    ActiveFollower, ActiveNavigation, Movement, NavigationFrame, NextStep, PlanVerdict, TickOutcome,
};
use crate::plugin::settings::{NavigationRequest, NavigationStatus, PathfinderSettings};
use crate::pos::BlockPos;

verus! {

/// The blocks between two positions, counted along the axes.
pub open spec fn blocks_apart(a: BlockPos, b: BlockPos) -> int {
    arith::abs_int(a.x - b.x) + arith::abs_int(a.y - b.y) + arith::abs_int(a.z - b.z)
}

/// Whether a body is as near to a goal as the planner was asked to come.
pub open spec fn near_enough(feet: BlockPos, goal: BlockPos, tolerance: i32) -> bool {
    blocks_apart(feet, goal) <= (if tolerance > 0 {
        tolerance as int
    } else {
        0
    })
}

/// A follower at the end of its path has arrived only where the plan reached
/// the goal and the feet are near enough to it. Everywhere else the leg ended
/// short: the next one is planned while the budget lasts, and then the journey
/// fails.
pub proof fn path_ends_arrive_only_at_the_goal(
    active: ActiveNavigation,
    feet: BlockPos,
    can_sprint: bool,
    generation: u64,
    settings: PathfinderSettings,
)
    ensures
        ({
            let decision = navigation::decided(
                active,
                FollowerDirective::Arrived,
                feet,
                can_sprint,
                generation,
                settings,
            );
            let there = active.reached_goal && near_enough(
                feet,
                active.planned_goal,
                settings.planner.goal_tolerance,
            );
            let spent = active.legs >= settings.max_plan_legs && active.legs >= 1;
            &&& decision.movement is Stop
            &&& decision.blame is None
            &&& there ==> decision.next == NextStep::Finish(
                NavigationStatus::Arrived { generation },
            )
            &&& !there && spent ==> decision.next == NextStep::Finish(
                NavigationStatus::Failed { generation },
            )
            &&& !there && !spent ==> (decision.next matches NextStep::Replan { legs } && legs
                == active.legs + 1)
        }),
{
}

/// A body that got stuck, or whose way became unsafe, stops. The block at fault
/// is charged, and the setback uses up a leg.
pub proof fn setbacks_cost_a_leg_and_blame_a_block(
    active: ActiveNavigation,
    directive: FollowerDirective,
    at: BlockPos,
    feet: BlockPos,
    can_sprint: bool,
    generation: u64,
    settings: PathfinderSettings,
)
    requires
        (directive matches FollowerDirective::Stuck { at: block } && block == at) || (
        directive matches FollowerDirective::Unsafe { at: block, .. } && block == at),
    ensures
        ({
            let decision = navigation::decided(
                active,
                directive,
                feet,
                can_sprint,
                generation,
                settings,
            );
            let spent = active.legs >= settings.max_plan_legs && active.legs >= 1;
            &&& decision.movement is Stop
            &&& decision.blame == Some(at)
            &&& spent ==> decision.next == NextStep::Finish(
                NavigationStatus::Failed { generation },
            )
            &&& !spent ==> (decision.next matches NextStep::Replan { legs } && legs == active.legs
                + 1)
        }),
{
}

/// A walking body does what its follower says: the same aim, jump, wandering
/// and turn, and a sprint exactly where the follower asks for one and the body
/// can. The leg goes on, and nothing is blamed.
pub proof fn bodies_follow_their_directives(
    active: ActiveNavigation,
    directive: FollowerDirective,
    feet: BlockPos,
    can_sprint: bool,
    generation: u64,
    settings: PathfinderSettings,
)
    ensures
        ({
            let decision = navigation::decided(
                active,
                directive,
                feet,
                can_sprint,
                generation,
                settings,
            );
            &&& directive matches FollowerDirective::Move {
                aim,
                sprint,
                jump,
                wander,
                turn,
            } ==> {
                &&& decision.movement == Movement::Advance {
                    aim,
                    sprint: sprint && can_sprint,
                    jump,
                    wander,
                    turn,
                }
                &&& decision.next == NextStep::Keep(NavigationStatus::Following { generation })
                &&& decision.blame is None
            }
            &&& directive matches FollowerDirective::Wait { aim } ==> {
                &&& decision.movement == Movement::Look { aim }
                &&& decision.next == NextStep::Keep(NavigationStatus::Following { generation })
                &&& decision.blame is None
            }
            &&& directive is Paused ==> {
                &&& decision.movement is Stop
                &&& decision.next == NextStep::Keep(NavigationStatus::Paused { generation })
                &&& decision.blame is None
            }
        }),
{
}

/// A tick reports an arrival only in a leg whose plan reached the goal, with
/// the feet near enough to it, and under the generation that was asked for.
pub proof fn ticks_arrive_only_at_the_goal(
    before: ActiveNavigation,
    request: NavigationRequest,
    terrain: Terrain,
    frame: &NavigationFrame,
    settings: PathfinderSettings,
    nonce: u64,
    after: ActiveNavigation,
    outcome: TickOutcome,
    next_nonce: u64,
)
    requires
        navigation::navigation_tick(
            before,
            request,
            terrain,
            frame,
            settings,
            nonce,
            after,
            outcome,
            next_nonce,
        ),
        outcome.decision.next matches NextStep::Finish(status) && status is Arrived,
    ensures
        before.reached_goal,
        near_enough(frame.body.feet, before.planned_goal, settings.planner.goal_tolerance),
        outcome.decision.next == NextStep::Finish(
            NavigationStatus::Arrived { generation: request.generation },
        ),
        outcome.decision.movement is Stop,
        outcome.decision.blame is None,
        !frame.body.paused,
{
}

/// A tick that plans again either keeps the count of its legs, because the
/// drops ahead or the goal have changed, or adds one to it within the budget.
pub proof fn ticks_spend_at_most_one_leg(
    before: ActiveNavigation,
    request: NavigationRequest,
    terrain: Terrain,
    frame: &NavigationFrame,
    settings: PathfinderSettings,
    nonce: u64,
    after: ActiveNavigation,
    outcome: TickOutcome,
    next_nonce: u64,
)
    requires
        navigation::navigation_tick(
            before,
            request,
            terrain,
            frame,
            settings,
            nonce,
            after,
            outcome,
            next_nonce,
        ),
    ensures
        outcome.decision.next matches NextStep::Replan { legs } ==> {
            ||| legs == before.legs + 1 && (legs <= settings.max_plan_legs || legs == 1)
            ||| legs == before.legs && frame.body.on_ground
            ||| legs == before.legs && request.goal is Dynamic && settings.dynamic_replan_ticks > 0
                && before.dynamic_ticks + 1 >= settings.dynamic_replan_ticks
        },
        after.legs == before.legs,
        after.reached_goal == before.reached_goal,
        after.planned_goal == before.planned_goal,
        after.journey_id == before.journey_id,
        after.stalled_legs == before.stalled_legs,
        outcome.decision.next matches NextStep::Keep(status) ==> {
            &&& status == (NavigationStatus::Paused { generation: request.generation }) || status
                == (NavigationStatus::Following { generation: request.generation })
            &&& outcome.decision.blame is None
        },
        outcome.decision.next matches NextStep::Finish(status) ==> {
            &&& status == (NavigationStatus::Failed { generation: request.generation }) || status
                == (NavigationStatus::Arrived { generation: request.generation })
            &&& outcome.decision.movement is Stop
        },
{
}

/// A paused tick stops the body, keeps the leg, and reports the pause; it
/// neither counts towards a moving goal nor touches the checked drops.
pub proof fn paused_ticks_stand_still(
    before: ActiveNavigation,
    request: NavigationRequest,
    terrain: Terrain,
    frame: &NavigationFrame,
    settings: PathfinderSettings,
    nonce: u64,
    after: ActiveNavigation,
    outcome: TickOutcome,
    next_nonce: u64,
)
    requires
        navigation::navigation_tick(
            before,
            request,
            terrain,
            frame,
            settings,
            nonce,
            after,
            outcome,
            next_nonce,
        ),
        frame.body.paused,
    ensures
        outcome.decision.movement is Stop,
        outcome.decision.next == NextStep::Keep(
            NavigationStatus::Paused { generation: request.generation },
        ),
        outcome.decision.blame is None,
        after.dynamic_ticks == before.dynamic_ticks,
        after.checked_fall_limit == before.checked_fall_limit,
        after.legs == before.legs,
{
}

/// Standing before a drop that is deeper than the body survives now, a tick
/// stops and plans the same leg again, for free.
pub proof fn deadly_drops_are_planned_around(
    before: ActiveNavigation,
    request: NavigationRequest,
    terrain: Terrain,
    frame: &NavigationFrame,
    settings: PathfinderSettings,
    nonce: u64,
    after: ActiveNavigation,
    outcome: TickOutcome,
    next_nonce: u64,
    i: int,
)
    requires
        navigation::navigation_tick(
            before,
            request,
            terrain,
            frame,
            settings,
            nonce,
            after,
            outcome,
            next_nonce,
        ),
        !frame.body.paused,
        frame.body.on_ground,
        before.checked_fall_limit != frame.fall_limit,
        1 <= i < before.follower.route().nodes@.len(),
        before.follower.node() <= i,
        before.follower.route().nodes@[i].reached_by is Fall
            || before.follower.route().nodes@[i].reached_by is Parkour,
        before.follower.route().nodes@[i - 1].pos.y - before.follower.route().nodes@[i].pos.y
            > frame.fall_limit,
        before.follower.route().nodes@[i - 1].pos.y - before.follower.route().nodes@[i].pos.y
            <= i32::MAX,
    ensures
        outcome.decision.movement is Stop,
        outcome.decision.next == (NextStep::Replan { legs: before.legs }),
        outcome.decision.blame is None,
        after.checked_fall_limit == before.checked_fall_limit,
{
    assert(!legs::survivable_onto(
        before.follower.route().nodes@,
        i,
        frame.fall_limit as int,
    ));
}

/// Where every drop ahead is survivable, or none was left unchecked, the drops
/// stop nobody: a tick plans the same leg again only for a moving goal.
pub proof fn survivable_drops_stop_nobody(
    before: ActiveNavigation,
    request: NavigationRequest,
    terrain: Terrain,
    frame: &NavigationFrame,
    settings: PathfinderSettings,
    nonce: u64,
    after: ActiveNavigation,
    outcome: TickOutcome,
    next_nonce: u64,
)
    requires
        navigation::navigation_tick(
            before,
            request,
            terrain,
            frame,
            settings,
            nonce,
            after,
            outcome,
            next_nonce,
        ),
        before.legs < u32::MAX,
        !(request.goal is Dynamic) || settings.dynamic_replan_ticks == 0 || before.dynamic_ticks + 1
            < settings.dynamic_replan_ticks,
        forall|i: int|
            1 <= i < before.follower.route().nodes@.len() && before.follower.node() <= i ==> {
                let node = #[trigger] before.follower.route().nodes@[i];
                node.reached_by is Fall || node.reached_by is Parkour
                    ==> before.follower.route().nodes@[i - 1].pos.y - node.pos.y
                    <= frame.fall_limit
            },
    ensures
        outcome.decision.next matches NextStep::Replan { legs } ==> legs == before.legs + 1,
{
    assert forall|i: int|
        arith::max_int(before.follower.node() as int, 1) <= i
            < before.follower.route().nodes@.len() implies #[trigger] legs::survivable_onto(
        before.follower.route().nodes@,
        i,
        frame.fall_limit as int,
    ) by {
        let node = before.follower.route().nodes@[i];
    }
}

/// A walking tick towards a moving goal counts itself, and plans the same leg
/// again exactly when as many ticks have passed as were configured.
pub proof fn moving_goals_are_planned_to_again(
    before: ActiveNavigation,
    request: NavigationRequest,
    frame: &NavigationFrame,
    settings: PathfinderSettings,
    directive: FollowerDirective,
    walked: ActiveFollower,
    after: ActiveNavigation,
    outcome: TickOutcome,
)
    requires
        navigation::concluding_tick(
            before,
            request,
            frame,
            settings,
            directive,
            walked,
            after,
            outcome,
        ),
        directive is Move || directive is Wait,
        before.dynamic_ticks < u32::MAX,
    ensures
        after.dynamic_ticks == before.dynamic_ticks + 1,
        request.goal is Dynamic && settings.dynamic_replan_ticks > 0 && after.dynamic_ticks
            >= settings.dynamic_replan_ticks ==> outcome.decision.next == (NextStep::Replan {
            legs: before.legs,
        }),
        request.goal is Fixed || settings.dynamic_replan_ticks == 0 || after.dynamic_ticks
            < settings.dynamic_replan_ticks ==> outcome.decision.next == NextStep::Keep(
            NavigationStatus::Following { generation: request.generation },
        ),
        directive is Move <==> outcome.decision.movement is Advance,
        directive is Wait <==> outcome.decision.movement is Look,
{
}

/// A plan for a request that was replaced meanwhile is ignored, and no other.
pub proof fn stale_plans_are_ignored(
    current: NavigationRequest,
    result: PlanResult,
    terrain: Terrain,
    on_ground: bool,
    settings: PathfinderSettings,
    verdict: PlanVerdict,
)
    requires
        navigation::concluded(current, result, terrain, on_ground, settings, verdict),
    ensures
        verdict is Ignore <==> current != result.request,
        current == result.request && result.plan is None ==> verdict is Fail,
{
}

/// A plan arrives without a step only where it reached the goal and has no
/// step to take.
pub proof fn plans_arrive_only_at_the_goal(
    current: NavigationRequest,
    result: PlanResult,
    terrain: Terrain,
    on_ground: bool,
    settings: PathfinderSettings,
    verdict: PlanVerdict,
)
    requires
        navigation::concluded(current, result, terrain, on_ground, settings, verdict),
        current == result.request,
    ensures
        verdict is Arrive <==> (result.reached_goal && result.plan is Some
            && result.plan->0.route().nodes@.len() <= 1),
{
}

/// A leg is followed exactly where it leads somewhere: to the goal in one or
/// more steps, or at least three blocks from where it starts. It is followed
/// from its beginning, under the counts that it was planned with.
pub proof fn legs_are_followed_where_they_lead_somewhere(
    current: NavigationRequest,
    result: PlanResult,
    terrain: Terrain,
    on_ground: bool,
    settings: PathfinderSettings,
    verdict: PlanVerdict,
)
    requires
        navigation::concluded(current, result, terrain, on_ground, settings, verdict),
        current == result.request,
        result.plan is Some,
    ensures
        ({
            let nodes = result.plan->0.route().nodes@;
            verdict is Follow <==> {
                ||| result.reached_goal && nodes.len() >= 2
                ||| !result.reached_goal && nodes.len() > 0 && blocks_apart(
                    nodes.last().pos,
                    result.start,
                ) >= 3
            }
        }),
        verdict matches PlanVerdict::Follow(active) ==> {
            &&& active.follower.route() == result.plan->0.route()
            &&& active.reached_goal == result.reached_goal
            &&& active.planned_goal == result.target
            &&& active.journey_id == result.journey_id
            &&& active.legs == result.legs
            &&& active.stalled_legs == 0
            &&& active.dynamic_ticks == 0
            &&& active.follower is Observed <==> result.observation_context is Some
        },
{
}

/// A leg that leads nowhere is planned again from the same start. A body in
/// free flight, with nothing in or under it to hold it, tries again for free;
/// any other try uses up a leg and a stalled leg, and without either left the
/// journey fails.
pub proof fn dead_ends_are_retried_within_the_budget(
    current: NavigationRequest,
    result: PlanResult,
    terrain: Terrain,
    on_ground: bool,
    settings: PathfinderSettings,
    verdict: PlanVerdict,
)
    requires
        navigation::concluded(current, result, terrain, on_ground, settings, verdict),
        current == result.request,
        result.plan is Some,
        !result.reached_goal,
        result.start.y > i32::MIN,
        result.plan->0.route().nodes@.len() == 0 || blocks_apart(
            result.plan->0.route().nodes@.last().pos,
            result.start,
        ) <= 2,
    ensures
        ({
            let here = terrain.kind(result.start);
            let below = terrain.kind(
                BlockPos { x: result.start.x, y: (result.start.y - 1) as i32, z: result.start.z },
            );
            let held = here is Water || here is Lava || here is Climbable || below is Water
                || below is Lava || below is Climbable;
            let flying = !on_ground && !held;
            let spent = (result.legs >= settings.max_plan_legs && result.legs >= 1)
                || result.stalled_legs >= legs::MAX_STALLED_LEGS;
            &&& flying ==> verdict == (PlanVerdict::Retry {
                start: result.start,
                journey_id: result.journey_id,
                legs: result.legs,
                stalled_legs: result.stalled_legs,
            })
            &&& !flying && spent ==> verdict is Fail
            &&& !flying && !spent ==> (verdict matches PlanVerdict::Retry {
                start,
                journey_id,
                legs,
                stalled_legs,
            } && start == result.start && journey_id == result.journey_id && legs == result.legs + 1
                && stalled_legs == result.stalled_legs + 1)
        }),
{
}

/// A body survives falls up to three blocks without harm, and one block more
/// for every point of health it may spend.
pub proof fn health_buys_depth(spendable: int, more: int)
    requires
        more >= 0,
        spendable + more <= 1_000_000,
    ensures
        spendable <= 0 ==> legs::survivable_fall(spendable) == 3,
        spendable >= 0 ==> legs::survivable_fall(spendable + more) == legs::survivable_fall(
            spendable,
        ) + more,
{
}

/// What is left of a budget shrinks by what was spent: whole milliseconds, at
/// least one while any time is left, and none afterwards.
pub proof fn budgets_run_out(total_ms: u64, spent_nanos: int)
    requires
        spent_nanos >= 0,
    ensures
        legs::budget_left(total_ms, spent_nanos) is None <==> spent_nanos >= total_ms * 1_000_000,
        legs::budget_left(total_ms, spent_nanos) matches Some(left) ==> {
            &&& 1 <= left <= total_ms
            &&& left > 1 ==> left * 1_000_000 + spent_nanos <= total_ms * 1_000_000
            &&& total_ms * 1_000_000 < (left + 1) * 1_000_000 + spent_nanos
        },
{
}

/// A body that cannot sprint is walked without being observed, as its times
/// would be no one's; one that can is observed as it was before.
pub proof fn slow_bodies_are_not_observed(
    before: ActiveFollower,
    can_sprint: bool,
    after: ActiveFollower,
)
    requires
        before.readies(can_sprint, after),
    ensures
        can_sprint ==> after == before,
        before is Plain ==> after == before,
        !can_sprint && before is Observed ==> (after matches ActiveFollower::Observed(end)
            && !end.log@.observations_enabled && end.follower == before->Observed_0.follower),
{
}

} // verus!
