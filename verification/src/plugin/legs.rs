//! One leg of a journey: what it is planned with, and whether to plan again.
use std::sync::Arc;

use vstd::prelude::*;

use crate::adaptive::context;
use crate::adaptive::context::{AdaptiveRegime, ObservationContext, ProfileKey};
use crate::adaptive::digest;
use crate::adaptive::digest::{follower_settings_hash, move_context_hash, movement_costs_hash};
use crate::adaptive::model::{AdaptiveMode, CostModelSnapshot};
use crate::adaptive::profile;
use crate::adaptive_follower;
use crate::adaptive_follower::observed_follower_settings;
use crate::arith;
use crate::local::astar;
use crate::local::astar::find_motion_plan_best_effort_on;
use crate::local::clock::{Clock, RunningClock};
use crate::local::goal::BlockGoal;
use crate::local::graph_model;
use crate::local::graph_model::Problem;
use crate::local::moves::{MoveContext, SAFE_FALL};
use crate::local::pace;
use crate::local::route_laws;
use crate::local::rules::builtin;
use crate::local::rules::builtin::{default_moves, BuiltinMove};
use crate::local::world;
use crate::local::world::{offset, BlockKind, SnapshotError, WorldSnapshot, WorldView};
use crate::planning;
use crate::planning::MotionPlan;
use crate::plugin::bounds;
use crate::plugin::bounds::{snap_to_standable, snapshot_bounds};
use crate::plugin::runtime::AdaptivePathfinderRuntime;
use crate::plugin::settings::{AdaptivePathfinderSettings, NavigationRequest, PathfinderSettings};
use crate::pos::BlockPos;
use crate::pos_map::PosMap;
use crate::types::{Cost, MoveKind, Path, PathNode};

verus! {

/// How many stalled legs to spend before giving up. Each retry re-seeds the
/// tie-break, so these are genuinely different attempts.
pub const MAX_STALLED_LEGS: u32 = 6;

/// Whether a body is in free flight, a state that ends by itself. Water, lava
/// and ladders hold a body that is not on the ground, and are places a planner
/// can reason about.
pub fn is_transient_free_fall<W: WorldView + ?Sized>(
    world: &W,
    position: BlockPos,
    on_ground: bool,
) -> (r: bool)
    ensures
        r == (!on_ground && !holds_afloat(world.terrain().kind(position)) && !holds_afloat(
            world.terrain().kind(world::shift(position, 0, -1, 0)),
        )),
{
    if on_ground {
        return false;
    }
    let here = world.block(position);
    let below = world.block(offset(position, 0, -1, 0));
    !floats_in(here) && !floats_in(below)
}

/// Whether a block keeps a body from falling freely.
pub open spec fn holds_afloat(kind: BlockKind) -> bool {
    kind == BlockKind::Water || kind == BlockKind::Lava || kind == BlockKind::Climbable
}

fn floats_in(kind: BlockKind) -> (r: bool)
    ensures
        r == holds_afloat(kind),
{
    kind == BlockKind::Water || kind == BlockKind::Lava || kind == BlockKind::Climbable
}

/// The legs and stalled legs of the next attempt after one that went nowhere,
/// if there is one.
pub open spec fn stalled_retry(
    legs: u32,
    stalled_legs: u32,
    max_plan_legs: u32,
    transient_free_fall: bool,
) -> Option<(u32, u32)> {
    if transient_free_fall {
        Some((legs, stalled_legs))
    } else if stalled_legs >= MAX_STALLED_LEGS || legs >= arith::max_int(max_plan_legs as int, 1) {
        None
    } else {
        Some(((legs + 1) as u32, (stalled_legs + 1) as u32))
    }
}

pub fn next_stalled_retry(
    legs: u32,
    stalled_legs: u32,
    max_plan_legs: u32,
    transient_free_fall: bool,
) -> (next: Option<(u32, u32)>)
    ensures
        next == stalled_retry(legs, stalled_legs, max_plan_legs, transient_free_fall),
{
    if transient_free_fall {
        return Some((legs, stalled_legs));
    }
    let next_stalled: u32 = stalled_legs.saturating_add(1);
    if next_stalled > MAX_STALLED_LEGS || legs >= leg_budget(max_plan_legs) {
        return None;
    }
    Some((legs.saturating_add(1), next_stalled))
}

/// The most legs of a journey; there is always one.
pub fn leg_budget(max_plan_legs: u32) -> (budget: u32)
    ensures
        budget == arith::max_int(max_plan_legs as int, 1),
{
    if max_plan_legs == 0 {
        1
    } else {
        max_plan_legs
    }
}

/// A retry outside free flight spends budget: it uses up a leg and a stalled
/// leg, and neither count passes its bound.
pub proof fn stalled_retries_are_bounded(legs: u32, stalled_legs: u32, max_plan_legs: u32)
    ensures
        match stalled_retry(legs, stalled_legs, max_plan_legs, false) {
            Some((more, stalls)) => {
                &&& more == legs + 1 && more <= arith::max_int(max_plan_legs as int, 1)
                &&& stalls == stalled_legs + 1 && stalls <= MAX_STALLED_LEGS
            },
            None => true,
        },
{
}

/// Conservative fall cap from the health that may be spent, in whole points
/// above a reserve. Armor and effects are deliberately not credited.
pub open spec fn survivable_fall(spendable: int) -> i32 {
    arith::clamp_i32(SAFE_FALL + arith::max_int(spendable, 0))
}

pub fn survivable_fall_limit(spendable_health: i32) -> (limit: i32)
    ensures
        limit == survivable_fall(spendable_health as int),
{
    if spendable_health <= 0 {
        SAFE_FALL
    } else {
        arith::saturating_add_i32(SAFE_FALL, spendable_health)
    }
}

/// Whether a move may drop the body.
pub open spec fn drops(kind: MoveKind) -> bool {
    kind is Fall || kind is Parkour
}

/// Whether the drop onto a node is within a limit.
pub open spec fn survivable_onto(nodes: Seq<PathNode>, i: int, fall_limit: int) -> bool {
    !drops(nodes[i].reached_by) || arith::clamp_i32(nodes[i - 1].pos.y - nodes[i].pos.y)
        <= fall_limit
}

/// Whether every drop left on a path is within a limit. The edge onto the node
/// being approached is still ahead.
pub fn remaining_falls_are_survivable(path: &Path, index: usize, fall_limit: i32) -> (r: bool)
    ensures
        r == (forall|i: int|
            arith::max_int(index as int, 1) <= i < path.nodes@.len() ==> #[trigger]
                survivable_onto(path.nodes@, i, fall_limit as int)),
{
    let mut i: usize = if index == 0 {
        1
    } else {
        index
    };
    while i < path.nodes.len()
        invariant
            i >= arith::max_int(index as int, 1),
            forall|k: int|
                arith::max_int(index as int, 1) <= k < i && k < path.nodes@.len()
                    ==> #[trigger] survivable_onto(path.nodes@, k, fall_limit as int),
        decreases path.nodes@.len() - i,
    {
        let before = path.nodes[i - 1];
        let node = path.nodes[i];
        let dropping: bool = match node.reached_by {
            MoveKind::Fall => true,
            MoveKind::Parkour { .. } => true,
            _ => false,
        };
        if dropping && arith::saturating_sub_i32(before.pos.y, node.pos.y) > fall_limit {
            assert(!survivable_onto(path.nodes@, i as int, fall_limit as int));
            return false;
        }
        assert(survivable_onto(path.nodes@, i as int, fall_limit as int));
        i += 1;
    }
    true
}

/// A lower limit never makes a path survivable that was not.
pub proof fn survivable_paths_stay_so_with_more_health(
    nodes: Seq<PathNode>,
    i: int,
    less: int,
    more: int,
)
    requires
        less <= more,
        survivable_onto(nodes, i, survivable_fall(less) as int),
    ensures
        survivable_onto(nodes, i, survivable_fall(more) as int),
{
}

/// What a leg learns under and routes by.
pub struct AdaptiveLegSeed {
    pub key: ProfileKey,
    pub model: CostModelSnapshot,
    pub regime: AdaptiveRegime,
    pub world_revision: u64,
}

/// The regime of a leg from the hashes of its settings, unless learning is off
/// or its key does not fit.
pub open spec fn regime_of(
    settings: AdaptivePathfinderSettings,
    planner_hash: u64,
    control_hash: u64,
    costs_hash: u64,
) -> Option<context::Regime> {
    match settings.profile {
        None => None,
        Some(key) => {
            let regime = context::Regime {
                build_id: settings.build_id@,
                planner_settings_hash: planner_hash,
                control_settings_hash: control_hash,
                baseline_costs_hash: costs_hash,
                actor_capability_hash: settings.actor_capability_hash,
            };
            if settings.learner.mode == AdaptiveMode::Disabled || !key@.valid()
                || key@.capability_hash != settings.actor_capability_hash || !regime.valid_for(
                key@,
            ) {
                None
            } else {
                Some(regime)
            }
        },
    }
}

pub fn leg_regime(
    settings: &AdaptivePathfinderSettings,
    planner_hash: u64,
    control_hash: u64,
    costs_hash: u64,
) -> (regime: Option<AdaptiveRegime>)
    ensures
        match regime {
            Some(made) => regime_of(*settings, planner_hash, control_hash, costs_hash) == Some(
                made@,
            ),
            None => regime_of(*settings, planner_hash, control_hash, costs_hash) is None,
        },
{
    match &settings.profile {
        None => None,
        Some(key) => {
            if settings.learner.mode == AdaptiveMode::Disabled || !key.validate()
                || key.capability_hash != settings.actor_capability_hash {
                return None;
            }
            let regime = AdaptiveRegime {
                build_id: settings.build_id.clone(),
                planner_settings_hash: planner_hash,
                control_settings_hash: control_hash,
                baseline_costs_hash: costs_hash,
                actor_capability_hash: settings.actor_capability_hash,
            };
            if regime.validate_for(key) {
                Some(regime)
            } else {
                None
            }
        },
    }
}

/// The regime of the current settings. Health caps and other route state have
/// no part in it.
pub open spec fn current_regime(
    settings: AdaptivePathfinderSettings,
    pathfinder: PathfinderSettings,
) -> Option<context::Regime> {
    let costs_hash = digest::short_hash(digest::costs_bytes(pathfinder.planner.costs));
    regime_of(
        settings,
        digest::short_hash(digest::planner_bytes(&pathfinder.planner, costs_hash)),
        digest::short_hash(
            digest::control_bytes(adaptive_follower::unsmoothed(pathfinder.follower)),
        ),
        costs_hash,
    )
}

/// Freezes what the next leg learns under and routes by. A leg without a valid
/// profile, or with learning disabled, has nothing.
pub fn adaptive_leg_seed(
    settings: &AdaptivePathfinderSettings,
    runtime: &mut AdaptivePathfinderRuntime,
    pathfinder: &PathfinderSettings,
) -> (seed: Option<AdaptiveLegSeed>)
    requires
        old(runtime).wf(),
    ensures
        final(runtime).wf(),
        match seed {
            None => {
                &&& current_regime(*settings, *pathfinder) is None
                &&& final(runtime)@ == old(runtime)@
            },
            Some(made) => {
                &&& settings.profile matches Some(key) && made.key@ == key@
                &&& current_regime(*settings, *pathfinder) == Some(made.regime@)
                &&& made.world_revision == settings.world_revision
                &&& profile::freezes(
                    old(runtime)@.held(made.key@),
                    pathfinder.planner.costs,
                    settings.learner,
                    made.regime@,
                    digest::short_hash(digest::costs_bytes(pathfinder.planner.costs)),
                    made.model,
                )
                &&& final(runtime)@ == if old(runtime)@.refuses(made.key@) {
                    old(runtime)@.counted()
                } else {
                    old(runtime)@.with(old(runtime)@.held(made.key@))
                }
            },
        },
{
    let planner_hash: u64 = move_context_hash(&pathfinder.planner);
    let control_hash: u64 = follower_settings_hash(
        &observed_follower_settings(pathfinder.follower),
    );
    let costs_hash: u64 = movement_costs_hash(pathfinder.planner.costs);
    let regime = match leg_regime(settings, planner_hash, control_hash, costs_hash) {
        Some(regime) => regime,
        None => {
            return None;
        },
    };
    match &settings.profile {
        None => None,
        Some(key) => {
            let model = runtime.snapshot(key, pathfinder.planner.costs, &settings.learner, &regime);
            Some(
                AdaptiveLegSeed {
                    key: key.clone(),
                    model,
                    regime,
                    world_revision: settings.world_revision,
                },
            )
        },
    }
}

/// What one leg is planned with.
pub struct PlanLeg {
    pub journey_id: u64,
    pub legs: u32,
    pub stalled_legs: u32,
    pub avoid: Arc<PosMap<Cost>>,
    /// The deepest drop the actor survives now.
    pub fall_limit: i32,
    pub adaptive: Option<AdaptiveLegSeed>,
}

/// What planning one leg came to.
pub struct PlanResult {
    pub request: NavigationRequest,
    pub journey_id: u64,
    pub plan: Option<MotionPlan>,
    pub observation_context: Option<ObservationContext>,
    pub reached_goal: bool,
    pub target: BlockPos,
    pub legs: u32,
    pub stalled_legs: u32,
    /// Where this leg was planned from, so "did this leg go anywhere" is
    /// answerable without trusting the follower to notice.
    pub start: BlockPos,
}

/// The step between the seeds of successive legs.
pub const LEG_SEED_STEP: u64 = 0x9E37_79B9_7F4A_7C15;

/// The seed of a leg. A search is deterministic, so replanning from the same
/// block with the same seed would return the identical path.
pub open spec fn leg_seed(path_seed: u64, legs: u32) -> u64 {
    path_seed.wrapping_add((legs as u64).wrapping_mul(LEG_SEED_STEP))
}

/// The planner settings of a leg.
pub open spec fn tuned(
    settings: PathfinderSettings,
    request: NavigationRequest,
    leg: PlanLeg,
    budget_ms: u64,
) -> MoveContext {
    MoveContext {
        avoid: leg.avoid,
        max_fall: arith::min_int(
            settings.planner.max_fall as int,
            leg.fall_limit as int,
        ) as i32,
        path_seed: leg_seed(request.path_seed, leg.legs),
        time_budget_ms: budget_ms,
        ..settings.planner
    }
}

pub fn leg_context(
    settings: &PathfinderSettings,
    request: &NavigationRequest,
    leg: &PlanLeg,
    budget_ms: u64,
) -> (context: MoveContext)
    ensures
        context == tuned(*settings, *request, *leg, budget_ms),
{
    let mut context = settings.planner.clone();
    context.avoid = leg.avoid.clone();
    if leg.fall_limit < context.max_fall {
        context.max_fall = leg.fall_limit;
    }
    context.path_seed =
    request.path_seed.wrapping_add((leg.legs as u64).wrapping_mul(LEG_SEED_STEP));
    context.time_budget_ms = budget_ms;
    context
}

/// The whole milliseconds left of a budget, at least one, or `None` once it is
/// used up.
pub open spec fn budget_left(total_ms: u64, spent_nanos: int) -> Option<u64> {
    let left = total_ms * 1_000_000 - spent_nanos;
    if left <= 0 {
        None
    } else {
        Some(arith::max_int(left / 1_000_000, 1) as u64)
    }
}

pub fn remaining_budget(total_ms: u64, spent_nanos: u128) -> (left: Option<u64>)
    ensures
        left == budget_left(total_ms, spent_nanos as int),
{
    let total: u128 = total_ms as u128 * 1_000_000;
    if spent_nanos >= total {
        return None;
    }
    let millis: u128 = (total - spent_nanos) / 1_000_000;
    if millis == 0 {
        Some(1)
    } else {
        Some(millis as u64)
    }
}

/// A planned leg carries its revision: the generation turned by 17 bits, plus
/// the leg.
pub open spec fn plan_revision(generation: u64, legs: u32) -> u64 {
    ((generation << 17u64) | (generation >> 47u64)).wrapping_add(legs as u64)
}

/// Whether an observation context describes a leg.
pub open spec fn describes_leg(
    context: ObservationContext,
    seed: AdaptiveLegSeed,
    request: NavigationRequest,
    journey_id: u64,
    legs: u32,
    costs_hash: u64,
    created_unix_ms: u64,
) -> bool {
    &&& context.profile@ == seed.key@
    &&& context.journey_id == journey_id
    &&& context.generation == request.generation
    &&& context.leg == legs
    &&& context.plan_revision == plan_revision(request.generation, legs)
    &&& context.world_revision == seed.world_revision
    &&& context.model_revision == seed.model.model_revision
    &&& context.planner_settings_hash == seed.regime.planner_settings_hash
    &&& context.control_settings_hash == seed.regime.control_settings_hash
    &&& context.baseline_costs_hash == costs_hash
    &&& context.actor_capability_hash == seed.regime.actor_capability_hash
    &&& context.build_id@ == seed.regime.build_id@
    &&& context.created_unix_ms == created_unix_ms
}

/// The context under which a leg's moves are observed.
pub fn leg_observation_context(
    seed: &AdaptiveLegSeed,
    request: &NavigationRequest,
    journey_id: u64,
    legs: u32,
    costs_hash: u64,
    created_unix_ms: u64,
) -> (context: ObservationContext)
    ensures
        describes_leg(context, *seed, *request, journey_id, legs, costs_hash, created_unix_ms),
{
    let turned: u64 = (request.generation << 17u64) | (request.generation >> 47u64);
    ObservationContext {
        profile: seed.key.clone(),
        journey_id,
        generation: request.generation,
        leg: legs,
        plan_revision: turned.wrapping_add(legs as u64),
        world_revision: seed.world_revision,
        model_revision: seed.model.model_revision,
        planner_settings_hash: seed.regime.planner_settings_hash,
        control_settings_hash: seed.regime.control_settings_hash,
        baseline_costs_hash: costs_hash,
        actor_capability_hash: seed.regime.actor_capability_hash,
        build_id: seed.regime.build_id.clone(),
        created_unix_ms,
    }
}

/// What a leg is searched in.
pub open spec fn leg_problem(
    terrain: world::Terrain,
    context: MoveContext,
    leg: PlanLeg,
) -> Problem<BuiltinMove> {
    Problem {
        terrain,
        ctx: context,
        moves: builtin::standard_moves(),
        model: match leg.adaptive {
            Some(seed) => Some(seed.model),
            None => None,
        },
    }
}

/// The fields of a result that planning does not touch.
pub open spec fn same_leg(
    result: PlanResult,
    request: NavigationRequest,
    start: BlockPos,
    leg: PlanLeg,
) -> bool {
    &&& result.request == request
    &&& result.journey_id == leg.journey_id
    &&& result.legs == leg.legs
    &&& result.stalled_legs == leg.stalled_legs
    &&& result.start == start
}

/// Whether a result says that nothing was planned.
pub open spec fn unplanned(result: PlanResult) -> bool {
    result.plan is None && result.observation_context is None && !result.reached_goal
}

/// Whether a result answers a search of `problem` toward `target`. There is a
/// plan unless walking somewhere costs more than a [`Cost`] holds.
pub open spec fn planned(
    problem: Problem<BuiltinMove>,
    result: PlanResult,
    leg: PlanLeg,
    target: BlockPos,
    costs_hash: u64,
) -> bool {
    let goal = BlockGoal::around(target, problem.ctx.goal_tolerance);
    match result.plan {
        Some(plan) => {
            &&& astar::best_effort_answer(
                problem,
                &goal,
                result.start,
                plan.route(),
                result.reached_goal,
            )
            &&& planning::steps_match(plan.route().nodes@, plan.motion())
            &&& astar::authored(problem, result.start, plan.route(), plan.motion())
            &&& match leg.adaptive {
                Some(seed) => result.observation_context matches Some(context) && describes_leg(
                    context,
                    seed,
                    result.request,
                    leg.journey_id,
                    leg.legs,
                    costs_hash,
                    0,
                ),
                None => result.observation_context is None,
            }
        },
        None => unplanned(result) && problem.overflows(
            &goal,
            problem.guided(&goal, result.start),
            result.start,
        ),
    }
}

/// What a search of `problem` toward `target` came to on a clock that always shows
/// `shown`. Past its limit the plan stays where it starts, and within it a plan
/// that stops short is the last word.
pub open spec fn prompt_plan(
    problem: Problem<BuiltinMove>,
    result: PlanResult,
    target: BlockPos,
    shown: u128,
) -> bool {
    &&& shown >= astar::time_limit(problem.ctx) ==> result.plan is Some
    &&& result.plan matches Some(plan) ==> astar::prompt_effort(
        problem,
        &BlockGoal::around(target, problem.ctx.goal_tolerance),
        result.start,
        plan.route(),
        result.reached_goal,
        shown,
    )
}

/// Whether the readings of a clock explain what a search of `problem` toward
/// `target` came to.
pub open spec fn timely_plan(
    problem: Problem<BuiltinMove>,
    result: PlanResult,
    target: BlockPos,
    log: Seq<u128>,
    log_after: Seq<u128>,
) -> bool {
    result.plan is Some ==> astar::timely_effort(
        problem,
        &BlockGoal::around(target, problem.ctx.goal_tolerance),
        result.start,
        log,
        log_after,
        result.reached_goal,
    )
}

impl PlanResult {
    fn nothing(
        request: NavigationRequest,
        start: BlockPos,
        leg: &PlanLeg,
        target: BlockPos,
    ) -> (result: PlanResult)
        ensures
            same_leg(result, request, start, *leg),
            unplanned(result),
            result.target == target,
    {
        PlanResult {
            request,
            journey_id: leg.journey_id,
            plan: None,
            observation_context: None,
            reached_goal: false,
            target,
            legs: leg.legs,
            stalled_legs: leg.stalled_legs,
            start,
        }
    }

    /// Notes when the leg was planned.
    pub fn stamp(&mut self, created_unix_ms: u64)
        ensures
            *final(self) == (PlanResult {
                observation_context: match old(self).observation_context {
                    Some(context) => Some(ObservationContext { created_unix_ms, ..context }),
                    None => None,
                },
                ..*old(self)
            }),
    {
        let mut taken: Option<ObservationContext> = None;
        std::mem::swap(&mut taken, &mut self.observation_context);
        if let Some(context) = taken {
            let mut stamped = context;
            stamped.created_unix_ms = created_unix_ms;
            self.observation_context = Some(stamped);
        }
    }
}

/// Plans one leg in a captured world with a given time budget.
pub fn plan_toward<W: WorldView + ?Sized, C: Clock>(
    request: NavigationRequest,
    start: BlockPos,
    target: BlockPos,
    world: &W,
    settings: &PathfinderSettings,
    leg: &PlanLeg,
    budget_ms: u64,
    costs_hash: u64,
    clock: &mut C,
) -> (result: PlanResult)
    ensures
        final(clock).reading() == old(clock).reading(),
        pace::extends(old(clock).log(), final(clock).log()),
        same_leg(result, request, start, *leg),
        result.target == target,
        planned(
            leg_problem(world.terrain(), tuned(*settings, request, *leg, budget_ms), *leg),
            result,
            *leg,
            target,
            costs_hash,
        ),
        old(clock).reading() matches Some(shown) ==> prompt_plan(
            leg_problem(world.terrain(), tuned(*settings, request, *leg, budget_ms), *leg),
            result,
            target,
            shown,
        ),
        timely_plan(
            leg_problem(world.terrain(), tuned(*settings, request, *leg, budget_ms), *leg),
            result,
            target,
            old(clock).log(),
            final(clock).log(),
        ),
{
    let context = leg_context(settings, &request, leg, budget_ms);
    let moves = default_moves();
    let model: Option<&CostModelSnapshot> = match &leg.adaptive {
        Some(seed) => Some(&seed.model),
        None => None,
    };
    proof {
        let problem = leg_problem(world.terrain(), context, *leg);
        let goal = BlockGoal::around(target, context.goal_tolerance);
        graph_model::standard_moves_are_described(problem);
        graph_model::unguided_searches_are_consistent(problem, &goal);
        if problem.guided(&goal, start) {
            graph_model::block_goals_are_consistent(problem, goal);
        }
    }
    let rules = moves.as_slice();
    let found = find_motion_plan_best_effort_on(
        world,
        start,
        target,
        rules,
        &context,
        model,
        clock,
    );
    assert(astar::adapted_problem(world, rules, &context, model) == leg_problem(
        world.terrain(),
        context,
        *leg,
    ));
    match found {
        Err(_) => PlanResult::nothing(request, start, leg, target),
        Ok((plan, reached_goal)) => {
            let observation_context: Option<ObservationContext> = match &leg.adaptive {
                Some(seed) => Some(
                    leg_observation_context(
                        seed,
                        &request,
                        leg.journey_id,
                        leg.legs,
                        costs_hash,
                        0,
                    ),
                ),
                None => None,
            };
            PlanResult {
                request,
                journey_id: leg.journey_id,
                plan: Some(plan),
                observation_context,
                reached_goal,
                target,
                legs: leg.legs,
                stalled_legs: leg.stalled_legs,
                start,
            }
        },
    }
}

/// Whether a goal was snapped: to the nearest place to stand, or left alone.
pub open spec fn snapped(
    terrain: world::Terrain,
    goal: BlockPos,
    lo: BlockPos,
    hi: BlockPos,
    target: BlockPos,
) -> bool {
    if !world::in_box(lo, hi, goal) || terrain.stands(goal) {
        target == goal
    } else {
        ||| exists|turn: int| #[trigger]
            bounds::snaps_at(terrain, goal, bounds::SNAP_PLACES as int, turn) && target
                == bounds::snap_place(goal, turn)
        ||| target == goal && forall|turn: int|
            0 <= turn < bounds::SNAP_PLACES ==> !terrain.stands(
                #[trigger] bounds::snap_place(goal, turn),
            )
    }
}

/// Moves a goal that cannot be stood in to where it can, so that reaching it
/// means what a person means by it.
pub fn snapped_goal<W: WorldView + ?Sized>(
    world: &W,
    goal: BlockPos,
    lo: BlockPos,
    hi: BlockPos,
) -> (target: BlockPos)
    ensures
        snapped(world.terrain(), goal, lo, hi, target),
{
    match snap_to_standable(world, goal, lo, hi) {
        Some(place) => place,
        None => goal,
    }
}

/// Plans one leg in what was captured of [`snapshot_bounds`]: moves the goal to
/// where it can be stood in, and searches with the time that is left once
/// capturing has spent some. Nothing is planned in an area that is too large,
/// or once the clock has used up the budget.
pub fn plan_leg(
    request: NavigationRequest,
    start: BlockPos,
    captured: &Result<WorldSnapshot, SnapshotError>,
    spent_nanos: u128,
    settings: &PathfinderSettings,
    leg: &PlanLeg,
) -> (result: PlanResult)
    ensures
        same_leg(result, request, start, *leg),
        exists|reading: u128| #[trigger]
            leg_answer(request, start, *captured, spent_nanos, *settings, *leg, reading, result),
{
    let mut clock = RunningClock::new();
    plan_leg_on(request, start, captured, spent_nanos, settings, leg, &mut clock)
}

/// What a leg is searched in with a given budget.
pub open spec fn captured_problem(
    snapshot: WorldSnapshot,
    settings: PathfinderSettings,
    request: NavigationRequest,
    leg: PlanLeg,
    budget_ms: u64,
) -> Problem<BuiltinMove> {
    leg_problem(snapshot.terrain(), tuned(settings, request, leg, budget_ms), leg)
}

/// What planning a leg answers when the clock shows `reading` once the goal was
/// moved to where it can be stood in. The search gets what capturing and that
/// leave of the budget; nothing is planned once they have used it up.
pub open spec fn leg_answer(
    request: NavigationRequest,
    start: BlockPos,
    captured: Result<WorldSnapshot, SnapshotError>,
    spent_nanos: u128,
    settings: PathfinderSettings,
    leg: PlanLeg,
    reading: u128,
    result: PlanResult,
) -> bool {
    let goal = request.goal.place();
    let (lo, hi) = bounds::leg_area(start, goal, settings);
    let costs_hash = digest::short_hash(digest::costs_bytes(settings.planner.costs));
    match captured {
        Err(_) => unplanned(result) && result.target == goal,
        Ok(snapshot) => if budget_left(settings.planner.time_budget_ms, spent_nanos as int) is None {
            unplanned(result) && result.target == goal
        } else {
            &&& snapped(snapshot.terrain(), goal, lo, hi, result.target)
            &&& match budget_left(settings.planner.time_budget_ms, spent_nanos + reading) {
                None => unplanned(result),
                Some(budget_ms) => planned(
                    captured_problem(snapshot, settings, request, leg, budget_ms),
                    result,
                    leg,
                    result.target,
                    costs_hash,
                ),
            }
        },
    }
}

/// Whether a leg is searched at all: its area was captured and there is time left.
pub open spec fn searchable(
    captured: Result<WorldSnapshot, SnapshotError>,
    spent_nanos: u128,
    settings: PathfinderSettings,
) -> bool {
    captured is Ok && budget_left(settings.planner.time_budget_ms, spent_nanos as int) is Some
}

/// What planning a leg makes of its clock. It takes one reading before it
/// searches, and the search takes the others; a leg that is not searched takes
/// none.
pub open spec fn leg_pace(
    request: NavigationRequest,
    captured: Result<WorldSnapshot, SnapshotError>,
    spent_nanos: u128,
    settings: PathfinderSettings,
    leg: PlanLeg,
    log: Seq<u128>,
    log_after: Seq<u128>,
    result: PlanResult,
) -> bool {
    if !searchable(captured, spent_nanos, settings) {
        log_after == log
    } else {
        let reading = log_after[log.len() as int];
        &&& log_after.len() > log.len()
        &&& match budget_left(settings.planner.time_budget_ms, spent_nanos + reading) {
            None => log_after == log.push(reading),
            Some(budget_ms) => timely_plan(
                captured_problem(captured->Ok_0, settings, request, leg, budget_ms),
                result,
                result.target,
                log.push(reading),
                log_after,
            ),
        }
    }
}

/// [`plan_leg`] with its time measured by a given clock.
pub fn plan_leg_on<C: Clock>(
    request: NavigationRequest,
    start: BlockPos,
    captured: &Result<WorldSnapshot, SnapshotError>,
    spent_nanos: u128,
    settings: &PathfinderSettings,
    leg: &PlanLeg,
    clock: &mut C,
) -> (result: PlanResult)
    ensures
        final(clock).reading() == old(clock).reading(),
        pace::extends(old(clock).log(), final(clock).log()),
        same_leg(result, request, start, *leg),
        leg_answer(
            request,
            start,
            *captured,
            spent_nanos,
            *settings,
            *leg,
            final(clock).log()[old(clock).log().len() as int],
            result,
        ),
        leg_pace(
            request,
            *captured,
            spent_nanos,
            *settings,
            *leg,
            old(clock).log(),
            final(clock).log(),
            result,
        ),
        old(clock).reading() matches Some(shown) ==> {
            &&& leg_answer(
                request,
                start,
                *captured,
                spent_nanos,
                *settings,
                *leg,
                shown,
                result,
            )
            &&& searchable(*captured, spent_nanos, *settings) ==> (budget_left(
                settings.planner.time_budget_ms,
                spent_nanos + shown,
            ) matches Some(budget_ms) ==> prompt_plan(
                captured_problem(captured->Ok_0, *settings, request, *leg, budget_ms),
                result,
                result.target,
                shown,
            ))
        },
{
    clock.start();
    let goal = request.goal.position();
    let (lo, hi) = snapshot_bounds(start, goal, settings);
    let snapshot = match captured {
        Ok(snapshot) => snapshot,
        Err(_) => {
            return PlanResult::nothing(request, start, leg, goal);
        },
    };
    if remaining_budget(settings.planner.time_budget_ms, spent_nanos).is_none() {
        return PlanResult::nothing(request, start, leg, goal);
    }
    let target = snapped_goal(snapshot, goal, lo, hi);
    let after_snapping: u128 = clock.nanos();
    let spent: u128 = spent_nanos.saturating_add(after_snapping);
    match remaining_budget(settings.planner.time_budget_ms, spent) {
        None => PlanResult::nothing(request, start, leg, target),
        Some(budget_ms) => {
            let costs_hash: u64 = movement_costs_hash(settings.planner.costs);
            plan_toward(
                request,
                start,
                target,
                snapshot,
                settings,
                leg,
                budget_ms,
                costs_hash,
                clock,
            )
        },
    }
}

/// No planned leg drops deeper than the actor survives, nor than it is set to. A
/// single block is walked down whatever the limit is.
pub proof fn legs_never_plan_deadly_falls(
    request: NavigationRequest,
    start: BlockPos,
    captured: Result<WorldSnapshot, SnapshotError>,
    spent_nanos: u128,
    settings: PathfinderSettings,
    leg: PlanLeg,
    reading: u128,
    result: PlanResult,
    i: int,
)
    requires
        same_leg(result, request, start, leg),
        leg_answer(request, start, captured, spent_nanos, settings, leg, reading, result),
        result.plan is Some,
        0 < i < result.plan->0.route().nodes@.len(),
    ensures
        ({
            let nodes = result.plan->0.route().nodes@;
            &&& nodes[i - 1].pos.y - nodes[i].pos.y <= arith::max_int(leg.fall_limit as int, 1)
            &&& nodes[i - 1].pos.y - nodes[i].pos.y <= arith::max_int(
                settings.planner.max_fall as int,
                1,
            )
            &&& leg.fall_limit >= 1 ==> survivable_onto(nodes, i, leg.fall_limit as int)
        }),
{
    let snapshot = captured->Ok_0;
    let budget_ms = budget_left(settings.planner.time_budget_ms, spent_nanos + reading)->0;
    let plan = result.plan->0;
    route_laws::planned_drops_are_bounded(
        captured_problem(snapshot, settings, request, leg, budget_ms),
        result.start,
        plan.route().nodes@,
        plan.route().total_cost,
        i,
    );
}

/// The limit on a leg's falls that health allows is always above a single block,
/// so that every drop of a plan within it is survivable.
pub proof fn health_allows_every_step(spendable: int)
    ensures
        survivable_fall(spendable) >= SAFE_FALL,
        SAFE_FALL >= 1,
{
}

} // verus!
