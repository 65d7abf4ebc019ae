//! Journeys in progress: what a finished plan leads to, and what one tick of
//! following decides.
use std::sync::Arc;

use vstd::prelude::*;

use crate::adaptive::context::InterruptionReason;
use crate::adaptive::estimate::AdaptiveSettings;
use crate::adaptive::observation::{MoveObservation, NonceAllocator};
use crate::adaptive_follower;
use crate::adaptive_follower::ObservedPathFollower;
use crate::arith;
use crate::local::follower;
use crate::local::follower::{Aim, FollowerDirective, FollowerFrame, PathFollower};
use crate::local::world;
use crate::local::world::{
    body_can_hold, BlockKind, Terrain, WorldSnapshot, WorldView, MAX_SNAPSHOT_BLOCKS,
};
use crate::planning::MotionPlan;
use crate::plugin::bounds;
use crate::plugin::bounds::{distance_between, follower_snapshot_bounds, position_reaches_goal};
use crate::plugin::legs;
use crate::plugin::legs::{
    is_transient_free_fall, leg_budget, next_stalled_retry, remaining_falls_are_survivable,
    AdaptiveLegSeed, PlanLeg, PlanResult,
};
use crate::plugin::memory::AvoidMemory;
use crate::plugin::runtime;
use crate::plugin::runtime::AdaptivePathfinderRuntime;
use crate::plugin::settings::{
    NavigationGoal, NavigationRequest, NavigationStatus, PathfinderSettings,
};
use crate::pos::BlockPos;
use crate::pos_map::PosMap;
use crate::types::Path;

verus! {

/// How far a leg has to travel to count as progress. A best-effort plan that
/// stops this close to its own start is the planner saying "nowhere better from
/// here".
pub const STALL_RADIUS: u64 = 3;

/// The food level above which a sprint may start.
pub const SPRINT_FOOD: u32 = 6;

/// Whether an actor may start to sprint. One without hunger always may.
pub fn may_sprint(food: Option<u32>) -> (r: bool)
    ensures
        r == (food matches Some(level) ==> level > SPRINT_FOOD),
{
    match food {
        Some(level) => level > SPRINT_FOOD,
        None => true,
    }
}

pub enum ActiveFollower {
    Plain(PathFollower),
    Observed(ObservedPathFollower),
}

impl ActiveFollower {
    pub open spec fn wf(self) -> bool {
        match self {
            ActiveFollower::Plain(follower) => follower.wf(),
            ActiveFollower::Observed(follower) => follower.wf(),
        }
    }

    pub open spec fn route(self) -> Path {
        match self {
            ActiveFollower::Plain(follower) => follower.path,
            ActiveFollower::Observed(follower) => follower.follower.path,
        }
    }

    pub open spec fn node(self) -> usize {
        match self {
            ActiveFollower::Plain(follower) => follower.idx,
            ActiveFollower::Observed(follower) => follower.follower.idx,
        }
    }

    /// One tick of the follower inside.
    pub open spec fn ticks(
        self,
        nonce: u64,
        terrain: Terrain,
        frame: &FollowerFrame,
        directive: FollowerDirective,
        after: ActiveFollower,
        next_nonce: u64,
    ) -> bool {
        match (self, after) {
            (ActiveFollower::Plain(start), ActiveFollower::Plain(end)) => {
                &&& start.ticked(terrain, frame, end, directive)
                &&& next_nonce == nonce
            },
            (ActiveFollower::Observed(start), ActiveFollower::Observed(end)) => {
                adaptive_follower::ticks(start, nonce, terrain, frame, directive, end, next_nonce)
            },
            _ => false,
        }
    }

    /// An interruption ends what is observed, if anything is.
    pub open spec fn interrupts(self, reason: InterruptionReason, after: ActiveFollower) -> bool {
        match (self, after) {
            (ActiveFollower::Plain(start), ActiveFollower::Plain(end)) => start == end,
            (ActiveFollower::Observed(start), ActiveFollower::Observed(end)) => {
                adaptive_follower::interrupts(start, reason, end)
            },
            _ => false,
        }
    }

    /// Suppressing observations ends what is observed, if anything is.
    pub open spec fn mutes(self, reason: InterruptionReason, after: ActiveFollower) -> bool {
        match (self, after) {
            (ActiveFollower::Plain(start), ActiveFollower::Plain(end)) => start == end,
            (ActiveFollower::Observed(start), ActiveFollower::Observed(end)) => {
                adaptive_follower::mutes(start, reason, end)
            },
            _ => false,
        }
    }

    pub open spec fn drains(self, taken: Seq<MoveObservation>, after: ActiveFollower) -> bool {
        match (self, after) {
            (ActiveFollower::Plain(start), ActiveFollower::Plain(end)) => {
                start == end && taken == Seq::<MoveObservation>::empty()
            },
            (ActiveFollower::Observed(start), ActiveFollower::Observed(end)) => {
                adaptive_follower::drains(start, taken, end)
            },
            _ => false,
        }
    }

    /// Interrupted, with its observations taken.
    pub open spec fn stops(
        self,
        reason: InterruptionReason,
        taken: Seq<MoveObservation>,
        after: ActiveFollower,
    ) -> bool {
        exists|halted: ActiveFollower| #[trigger]
            self.interrupts(reason, halted) && halted.drains(taken, after)
    }

    /// Ready to tick: an actor that cannot sprint runs in another timing
    /// regime, and its leg must not contaminate what is learned.
    pub open spec fn readies(self, can_sprint: bool, after: ActiveFollower) -> bool {
        if can_sprint {
            after == self
        } else {
            self.mutes(InterruptionReason::Unknown, after)
        }
    }

    pub fn path(&self) -> (path: &Path)
        ensures
            *path == self.route(),
    {
        match self {
            ActiveFollower::Plain(follower) => follower.path(),
            ActiveFollower::Observed(follower) => follower.path(),
        }
    }

    pub fn current_node_index(&self) -> (index: usize)
        ensures
            index == self.node(),
    {
        match self {
            ActiveFollower::Plain(follower) => follower.current_node_index(),
            ActiveFollower::Observed(follower) => follower.current_node_index(),
        }
    }

    pub fn tick<W: WorldView + ?Sized>(
        &mut self,
        world: &W,
        frame: &FollowerFrame,
        nonces: &mut NonceAllocator,
    ) -> (directive: FollowerDirective)
        requires
            old(self).wf(),
        ensures
            final(self).wf(),
            final(self).route() == old(self).route(),
            old(self).ticks(
                old(nonces).upcoming(),
                world.terrain(),
                frame,
                directive,
                *final(self),
                final(nonces).upcoming(),
            ),
    {
        match self {
            ActiveFollower::Plain(follower) => follower.tick(world, frame),
            ActiveFollower::Observed(follower) => follower.tick(world, frame, nonces),
        }
    }

    pub fn interrupt(&mut self, reason: InterruptionReason)
        requires
            old(self).wf(),
        ensures
            final(self).wf(),
            final(self).route() == old(self).route(),
            old(self).interrupts(reason, *final(self)),
    {
        match self {
            ActiveFollower::Plain(_) => {},
            ActiveFollower::Observed(follower) => {
                follower.interrupt(reason);
            },
        }
    }

    pub fn disable_observations(&mut self, reason: InterruptionReason)
        requires
            old(self).wf(),
        ensures
            final(self).wf(),
            final(self).route() == old(self).route(),
            final(self).node() == old(self).node(),
            old(self).mutes(reason, *final(self)),
    {
        match self {
            ActiveFollower::Plain(_) => {},
            ActiveFollower::Observed(follower) => {
                follower.disable_observations(reason);
            },
        }
    }

    pub fn drain_observations(&mut self) -> (taken: Vec<MoveObservation>)
        requires
            old(self).wf(),
        ensures
            final(self).wf(),
            final(self).route() == old(self).route(),
            old(self).drains(taken@, *final(self)),
    {
        match self {
            ActiveFollower::Plain(_) => Vec::new(),
            ActiveFollower::Observed(follower) => follower.drain_observations(),
        }
    }

    /// Interrupts the follower and takes its observations.
    pub fn stop(&mut self, reason: InterruptionReason) -> (taken: Vec<MoveObservation>)
        requires
            old(self).wf(),
        ensures
            final(self).wf(),
            final(self).route() == old(self).route(),
            old(self).stops(reason, taken@, *final(self)),
    {
        self.interrupt(reason);
        self.drain_observations()
    }
}

/// A leg being followed.
pub struct ActiveNavigation {
    pub follower: ActiveFollower,
    pub journey_id: u64,
    pub reached_goal: bool,
    pub planned_goal: BlockPos,
    pub legs: u32,
    /// Consecutive legs that ended within [`STALL_RADIUS`] of where they began.
    pub stalled_legs: u32,
    pub dynamic_ticks: u32,
    /// Fall limit against which the remaining path was last checked. A
    /// sentinel forces one check when a newly planned route is installed.
    pub checked_fall_limit: i32,
}

/// The learner after some observations, in their order.
pub open spec fn observed_all(
    learner: runtime::RuntimeState,
    observations: Seq<MoveObservation>,
    settings: AdaptiveSettings,
) -> runtime::RuntimeState
    decreases observations.len(),
{
    if observations.len() == 0 {
        learner
    } else {
        observed_all(learner, observations.drop_last(), settings).observed(
            observations.last(),
            settings,
        )
    }
}

/// Hands observations to the learner.
pub fn record_observations(
    observations: &Vec<MoveObservation>,
    learner: &mut AdaptivePathfinderRuntime,
    settings: &AdaptiveSettings,
)
    requires
        old(learner).wf(),
    ensures
        final(learner).wf(),
        final(learner)@ == observed_all(old(learner)@, observations@, settings.ranged()),
{
    let ghost start = learner@;
    let mut i: usize = 0;
    assert(observations@.take(0) =~= Seq::empty());
    while i < observations.len()
        invariant
            i <= observations@.len(),
            learner.wf(),
            learner@ == observed_all(start, observations@.take(i as int), settings.ranged()),
        decreases observations@.len() - i,
    {
        let _ = learner.try_observe(&observations[i], settings);
        proof {
            assert(observations@.take(i + 1).drop_last() =~= observations@.take(i as int));
        }
        i += 1;
    }
    assert(observations@.take(observations@.len() as int) =~= observations@);
}

/// Whether a request has to be planned: it is new, or nothing is under way.
pub fn starts_navigation(changed: bool, planning: bool, following: bool, ended: bool) -> (r: bool)
    ensures
        r == (changed || (!planning && !following && !ended)),
{
    changed || !(planning || following || ended)
}

/// The first leg of a journey. A new destination starts with a clean slate.
pub fn first_leg(journey_id: u64, fall_limit: i32, adaptive: Option<AdaptiveLegSeed>) -> (leg:
    PlanLeg)
    ensures
        leg.journey_id == journey_id,
        leg.legs == 1,
        leg.stalled_legs == 0,
        leg.avoid@ == Map::<BlockPos, crate::types::Cost>::empty(),
        leg.fall_limit == fall_limit,
        leg.adaptive == adaptive,
{
    PlanLeg {
        journey_id,
        legs: 1,
        stalled_legs: 0,
        avoid: Arc::new(PosMap::new()),
        fall_limit,
        adaptive,
    }
}

/// A later leg of a journey, which remembers where it went wrong.
pub fn later_leg(
    journey_id: u64,
    legs: u32,
    stalled_legs: u32,
    memory: Option<&AvoidMemory>,
    fall_limit: i32,
    adaptive: Option<AdaptiveLegSeed>,
) -> (leg: PlanLeg)
    ensures
        leg.journey_id == journey_id,
        leg.legs == legs,
        leg.stalled_legs == stalled_legs,
        leg.avoid@ == (match memory {
            Some(known) => known.spots@,
            None => Map::<BlockPos, crate::types::Cost>::empty(),
        }),
        leg.fall_limit == fall_limit,
        leg.adaptive == adaptive,
{
    let avoid = match memory {
        Some(known) => known.snapshot(),
        None => Arc::new(PosMap::new()),
    };
    PlanLeg { journey_id, legs, stalled_legs, avoid, fall_limit, adaptive }
}

/// What a finished plan leads to.
pub enum PlanVerdict {
    /// The request was replaced while the plan was made.
    Ignore,
    Fail,
    Arrive,
    /// Straight back to the planner with a fresh seed.
    Retry { start: BlockPos, journey_id: u64, legs: u32, stalled_legs: u32 },
    Follow(ActiveNavigation),
}

/// Where a planned path ends.
pub open spec fn plan_end(start: BlockPos, path: Path) -> BlockPos {
    if path.nodes@.len() == 0 {
        start
    } else {
        path.nodes@.last().pos
    }
}

/// Whether a plan is a dead end: it does not reach the goal and stays around
/// its own start.
pub open spec fn goes_nowhere(result: PlanResult, path: Path) -> bool {
    !result.reached_goal && bounds::manhattan(plan_end(result.start, path), result.start)
        < STALL_RADIUS
}

/// Whether a navigation follows the plan of a result from its beginning.
pub open spec fn follows(
    active: ActiveNavigation,
    result: PlanResult,
    plan: MotionPlan,
    settings: PathfinderSettings,
) -> bool {
    let seed = result.request.path_seed;
    &&& active.follower.wf()
    &&& match result.observation_context {
        Some(context) => active.follower matches ActiveFollower::Observed(observed)
            && observed.follower == follower::begun(
            plan.route(),
            adaptive_follower::unsmoothed(settings.follower),
            seed,
        ) && observed.log@ == adaptive_follower::opened(plan.motion(), context),
        None => active.follower matches ActiveFollower::Plain(plain) && plain == follower::begun(
            plan.route(),
            settings.follower,
            seed,
        ),
    }
    &&& active.journey_id == result.journey_id
    &&& active.reached_goal == result.reached_goal
    &&& active.planned_goal == result.target
    &&& active.legs == result.legs
    &&& active.stalled_legs == 0
    &&& active.dynamic_ticks == 0
    &&& active.checked_fall_limit == i32::MIN
}

/// What a finished plan leads to: nothing where the request has changed, a
/// failure without a plan, an arrival where the goal was reached on the spot,
/// another try for a dead end, and otherwise a leg to follow.
pub open spec fn concluded(
    current: NavigationRequest,
    result: PlanResult,
    terrain: Terrain,
    on_ground: bool,
    settings: PathfinderSettings,
    verdict: PlanVerdict,
) -> bool {
    if current != result.request {
        verdict is Ignore
    } else {
        match result.plan {
            None => verdict is Fail,
            Some(plan) => if result.reached_goal && plan.route().nodes@.len() < 2 {
                verdict is Arrive
            } else if goes_nowhere(result, plan.route()) {
                let free_fall = !on_ground && !legs::holds_afloat(
                    terrain.kind(result.start),
                ) && !legs::holds_afloat(
                    terrain.kind(world::shift(result.start, 0, -1, 0)),
                );
                match legs::stalled_retry(
                    result.legs,
                    result.stalled_legs,
                    settings.max_plan_legs,
                    free_fall,
                ) {
                    Some((legs, stalled_legs)) => verdict == (PlanVerdict::Retry {
                        start: result.start,
                        journey_id: result.journey_id,
                        legs,
                        stalled_legs,
                    }),
                    None => verdict is Fail,
                }
            } else {
                verdict matches PlanVerdict::Follow(active) && follows(
                    active,
                    result,
                    plan,
                    settings,
                )
            },
        }
    }
}

/// Decides what to do with a finished plan.
///
/// A leg that goes nowhere is not followed: that would arrive at once and plan
/// again without moving. It is retried with another seed until the budget is
/// spent; a body in free flight gets another try for free, since it will land
/// somewhere that can be planned from.
pub fn conclude_plan<W: WorldView + ?Sized>(
    current: &NavigationRequest,
    result: PlanResult,
    world: &W,
    on_ground: bool,
    settings: &PathfinderSettings,
) -> (verdict: PlanVerdict)
    ensures
        concluded(*current, result, world.terrain(), on_ground, *settings, verdict),
{
    if *current != result.request {
        return PlanVerdict::Ignore;
    }
    let plan = match result.plan {
        None => {
            return PlanVerdict::Fail;
        },
        Some(plan) => plan,
    };
    let count: usize = plan.path().nodes.len();
    if result.reached_goal && count < 2 {
        return PlanVerdict::Arrive;
    }
    let end = if count == 0 {
        result.start
    } else {
        plan.path().nodes[count - 1].pos
    };
    if !result.reached_goal && distance_between(end, result.start) < STALL_RADIUS {
        let free_fall = is_transient_free_fall(world, result.start, on_ground);
        return match next_stalled_retry(
            result.legs,
            result.stalled_legs,
            settings.max_plan_legs,
            free_fall,
        ) {
            Some((legs, stalled_legs)) => PlanVerdict::Retry {
                start: result.start,
                journey_id: result.journey_id,
                legs,
                stalled_legs,
            },
            None => PlanVerdict::Fail,
        };
    }
    let follower = match result.observation_context {
        Some(context) => ActiveFollower::Observed(
            ObservedPathFollower::new(plan, settings.follower, current.path_seed, context),
        ),
        None => ActiveFollower::Plain(
            PathFollower::new(plan.into_path(), settings.follower, current.path_seed),
        ),
    };
    PlanVerdict::Follow(
        ActiveNavigation {
            follower,
            journey_id: result.journey_id,
            reached_goal: result.reached_goal,
            planned_goal: result.target,
            legs: result.legs,
            stalled_legs: 0,
            dynamic_ticks: 0,
            checked_fall_limit: i32::MIN,
        },
    )
}

/// What the client measured in one tick.
pub struct NavigationFrame {
    /// The deepest drop the actor survives now.
    pub fall_limit: i32,
    pub can_sprint: bool,
    pub body: FollowerFrame,
}

/// How to move in one tick.
#[derive(Clone, Copy, PartialEq, Eq, Structural, Debug)]
pub enum Movement {
    Stop,
    /// Stop, but keep looking where the path goes.
    Look { aim: Aim },
    Advance { aim: Aim, sprint: bool, jump: bool, wander: bool, turn: bool },
}

/// What becomes of a navigation after a tick.
#[derive(Clone, Copy, PartialEq, Eq, Structural, Debug)]
pub enum NextStep {
    Keep(NavigationStatus),
    /// Over: stop, drop the leg, and remember that the request was answered.
    Finish(NavigationStatus),
    /// Stop, drop the leg, and plan the given one from where the body is.
    Replan { legs: u32 },
}

#[derive(Clone, Copy, PartialEq, Eq, Structural, Debug)]
pub struct Decision {
    pub movement: Movement,
    pub next: NextStep,
    /// A block to charge before the next leg is planned.
    pub blame: Option<BlockPos>,
}

/// What one tick of navigation came to.
pub struct TickOutcome {
    pub decision: Decision,
    /// What was observed, in order.
    pub observations: Vec<MoveObservation>,
}

/// Whether the body is where the journey goes.
pub open spec fn journey_done(active: ActiveNavigation, feet: BlockPos, tolerance: i32) -> bool {
    active.reached_goal && bounds::manhattan(feet, active.planned_goal) <= arith::max_int(
        tolerance as int,
        0,
    )
}

/// What to do after a leg that ended short of the goal.
pub open spec fn next_leg(legs: u32, max_plan_legs: u32, generation: u64) -> NextStep {
    if legs >= arith::max_int(max_plan_legs as int, 1) {
        NextStep::Finish(NavigationStatus::Failed { generation })
    } else {
        NextStep::Replan { legs: (legs + 1) as u32 }
    }
}

/// What a directive leads to. Arriving at the end of a partial path is not a
/// failure to blame; being stuck and being unsafe are.
pub open spec fn decided(
    active: ActiveNavigation,
    directive: FollowerDirective,
    feet: BlockPos,
    can_sprint: bool,
    generation: u64,
    settings: PathfinderSettings,
) -> Decision {
    match directive {
        FollowerDirective::Paused => Decision {
            movement: Movement::Stop,
            next: NextStep::Keep(NavigationStatus::Paused { generation }),
            blame: None,
        },
        FollowerDirective::Move { aim, sprint, jump, wander, turn } => Decision {
            movement: Movement::Advance {
                aim,
                sprint: sprint && can_sprint,
                jump,
                wander,
                turn,
            },
            next: NextStep::Keep(NavigationStatus::Following { generation }),
            blame: None,
        },
        FollowerDirective::Wait { aim } => Decision {
            movement: Movement::Look { aim },
            next: NextStep::Keep(NavigationStatus::Following { generation }),
            blame: None,
        },
        FollowerDirective::Arrived => Decision {
            movement: Movement::Stop,
            next: if journey_done(active, feet, settings.planner.goal_tolerance) {
                NextStep::Finish(NavigationStatus::Arrived { generation })
            } else {
                next_leg(active.legs, settings.max_plan_legs, generation)
            },
            blame: None,
        },
        FollowerDirective::Stuck { at } => Decision {
            movement: Movement::Stop,
            next: next_leg(active.legs, settings.max_plan_legs, generation),
            blame: Some(at),
        },
        FollowerDirective::Unsafe { at, .. } => Decision {
            movement: Movement::Stop,
            next: next_leg(active.legs, settings.max_plan_legs, generation),
            blame: Some(at),
        },
    }
}

impl ActiveNavigation {
    pub open spec fn wf(self) -> bool {
        self.follower.wf()
    }

    /// Whether the drops that are left need no check or pass it.
    pub open spec fn falls_are_safe(self, fall_limit: i32) -> bool {
        self.checked_fall_limit == fall_limit || forall|i: int|
            arith::max_int(self.follower.node() as int, 1) <= i < self.follower.route().nodes@.len()
                ==> #[trigger] legs::survivable_onto(
                self.follower.route().nodes@,
                i,
                fall_limit as int,
            )
    }

    /// With the drops that are left checked against a limit.
    pub open spec fn checked(self, fall_limit: i32) -> ActiveNavigation {
        ActiveNavigation {
            checked_fall_limit: if self.falls_are_safe(fall_limit) {
                fall_limit
            } else {
                self.checked_fall_limit
            },
            ..self
        }
    }

    /// Whether a moving goal is due to be planned to again.
    pub open spec fn replan_due(self, goal: NavigationGoal, settings: PathfinderSettings) -> bool {
        &&& goal is Dynamic
        &&& settings.dynamic_replan_ticks > 0
        &&& arith::min_int(self.dynamic_ticks + 1, u32::MAX as int)
            >= settings.dynamic_replan_ticks
    }

    fn decide(
        &self,
        directive: FollowerDirective,
        feet: BlockPos,
        can_sprint: bool,
        generation: u64,
        settings: &PathfinderSettings,
    ) -> (decision: Decision)
        ensures
            decision == decided(*self, directive, feet, can_sprint, generation, *settings),
    {
        let after_leg: NextStep = if self.legs >= leg_budget(settings.max_plan_legs) {
            NextStep::Finish(NavigationStatus::Failed { generation })
        } else {
            NextStep::Replan { legs: self.legs.saturating_add(1) }
        };
        match directive {
            FollowerDirective::Paused => Decision {
                movement: Movement::Stop,
                next: NextStep::Keep(NavigationStatus::Paused { generation }),
                blame: None,
            },
            FollowerDirective::Move { aim, sprint, jump, wander, turn } => Decision {
                movement: Movement::Advance {
                    aim,
                    sprint: sprint && can_sprint,
                    jump,
                    wander,
                    turn,
                },
                next: NextStep::Keep(NavigationStatus::Following { generation }),
                blame: None,
            },
            FollowerDirective::Wait { aim } => Decision {
                movement: Movement::Look { aim },
                next: NextStep::Keep(NavigationStatus::Following { generation }),
                blame: None,
            },
            FollowerDirective::Arrived => {
                let done: bool = self.reached_goal && position_reaches_goal(
                    feet,
                    self.planned_goal,
                    settings.planner.goal_tolerance,
                );
                Decision {
                    movement: Movement::Stop,
                    next: if done {
                        NextStep::Finish(NavigationStatus::Arrived { generation })
                    } else {
                        after_leg
                    },
                    blame: None,
                }
            },
            FollowerDirective::Stuck { at } => Decision {
                movement: Movement::Stop,
                next: after_leg,
                blame: Some(at),
            },
            FollowerDirective::Unsafe { at, .. } => Decision {
                movement: Movement::Stop,
                next: after_leg,
                blame: Some(at),
            },
        }
    }

    /// Ends a navigation whose request was replaced, cancelled or removed, and
    /// takes what it observed.
    pub fn abandon(&mut self, reason: InterruptionReason) -> (taken: Vec<MoveObservation>)
        requires
            old(self).wf(),
        ensures
            final(self).wf(),
            *final(self) == (ActiveNavigation { follower: final(self).follower, ..*old(self) }),
            old(self).follower.stops(reason, taken@, final(self).follower),
    {
        self.follower.stop(reason)
    }
}

/// A world that nothing is known of.
pub struct UnavailableWorld;

impl WorldView for UnavailableWorld {
    open spec fn terrain(&self) -> Terrain {
        world::unknown_terrain()
    }

    fn block(&self, _pos: BlockPos) -> (kind: BlockKind) {
        BlockKind::Unloaded
    }

    fn standable(&self, _pos: BlockPos) -> (holds: bool) {
        body_can_hold(
            BlockKind::Unloaded,
            BlockKind::Unloaded,
            BlockKind::Unloaded,
            BlockKind::Unloaded,
        )
    }
}

/// The tick of a paused navigation: the follower's clock stands still.
pub open spec fn paused_tick(
    before: ActiveNavigation,
    generation: u64,
    frame: &NavigationFrame,
    nonce: u64,
    after: ActiveNavigation,
    outcome: TickOutcome,
    next_nonce: u64,
) -> bool {
    &&& exists|directive: FollowerDirective, walked: ActiveFollower| #[trigger]
        before.follower.ticks(
            nonce,
            world::unknown_terrain(),
            &frame.body,
            directive,
            walked,
            next_nonce,
        ) && walked.drains(outcome.observations@, after.follower)
    &&& after == (ActiveNavigation { follower: after.follower, ..before })
    &&& outcome.decision == (Decision {
        movement: Movement::Stop,
        next: NextStep::Keep(NavigationStatus::Paused { generation }),
        blame: None,
    })
}

/// A tick that stops before the follower walks.
pub open spec fn halting_tick(
    before: ActiveNavigation,
    follower: ActiveFollower,
    next: NextStep,
    after: ActiveNavigation,
    outcome: TickOutcome,
) -> bool {
    &&& follower.stops(
        InterruptionReason::WorldChanged,
        outcome.observations@,
        after.follower,
    )
    &&& after == (ActiveNavigation { follower: after.follower, ..before })
    &&& outcome.decision == (Decision { movement: Movement::Stop, next, blame: None })
}

/// What follows from a directive: the decision it leads to, unless a moving
/// goal is due to be planned to again.
pub open spec fn concluding_tick(
    before: ActiveNavigation,
    request: NavigationRequest,
    frame: &NavigationFrame,
    settings: PathfinderSettings,
    directive: FollowerDirective,
    walked: ActiveFollower,
    after: ActiveNavigation,
    outcome: TickOutcome,
) -> bool {
    let decision = decided(
        before,
        directive,
        frame.body.feet,
        frame.can_sprint,
        request.generation,
        settings,
    );
    if decision.next is Keep {
        &&& after == (ActiveNavigation {
            follower: after.follower,
            dynamic_ticks: arith::min_int(before.dynamic_ticks + 1, u32::MAX as int) as u32,
            ..before
        })
        &&& if before.replan_due(request.goal, settings) {
            &&& outcome.decision == (Decision {
                next: NextStep::Replan { legs: before.legs },
                ..decision
            })
            &&& exists|
                quiet: ActiveFollower,
                first: Seq<MoveObservation>,
                second: Seq<MoveObservation>,
            |
                {
                    &&& #[trigger] walked.drains(first, quiet)
                    &&& #[trigger] quiet.stops(
                        InterruptionReason::GoalChanged,
                        second,
                        after.follower,
                    )
                    &&& outcome.observations@ == first + second
                }
        } else {
            outcome.decision == decision && walked.drains(
                outcome.observations@,
                after.follower,
            )
        }
    } else {
        &&& after == (ActiveNavigation { follower: after.follower, ..before })
        &&& outcome.decision == decision
        &&& walked.drains(outcome.observations@, after.follower)
    }
}

/// The tick of a navigation that is not paused and whose drops are checked: the
/// blocks ahead are captured again, and the follower walks through them.
pub open spec fn walking_tick(
    before: ActiveNavigation,
    request: NavigationRequest,
    terrain: Terrain,
    frame: &NavigationFrame,
    settings: PathfinderSettings,
    nonce: u64,
    ready: ActiveFollower,
    after: ActiveNavigation,
    outcome: TickOutcome,
    next_nonce: u64,
) -> bool {
    let (lo, hi) = bounds::follow_area(
        frame.body.feet,
        ready.route().nodes@,
        ready.node() as int,
        settings.follower,
    );
    if world::measured_volume(lo, hi) > MAX_SNAPSHOT_BLOCKS {
        halting_tick(
            before,
            ready,
            NextStep::Finish(NavigationStatus::Failed { generation: request.generation }),
            after,
            outcome,
        ) && next_nonce == nonce
    } else {
        exists|
            snapshot: WorldSnapshot,
            directive: FollowerDirective,
            walked: ActiveFollower,
        |
            {
                &&& #[trigger] snapshot.captures(terrain, lo, hi)
                &&& #[trigger] ready.ticks(
                    nonce,
                    snapshot.terrain(),
                    &frame.body,
                    directive,
                    walked,
                    next_nonce,
                )
                &&& concluding_tick(
                    before,
                    request,
                    frame,
                    settings,
                    directive,
                    walked,
                    after,
                    outcome,
                )
            }
    }
}

/// One tick of navigation.
///
/// A paused one only keeps its books. Standing on the ground before a drop that
/// health no longer allows, it plans the same leg again. Otherwise the follower
/// walks through the blocks ahead as they are now.
pub open spec fn navigation_tick(
    before: ActiveNavigation,
    request: NavigationRequest,
    terrain: Terrain,
    frame: &NavigationFrame,
    settings: PathfinderSettings,
    nonce: u64,
    after: ActiveNavigation,
    outcome: TickOutcome,
    next_nonce: u64,
) -> bool {
    if frame.body.paused {
        paused_tick(before, request.generation, frame, nonce, after, outcome, next_nonce)
    } else if frame.body.on_ground && !before.falls_are_safe(frame.fall_limit) {
        halting_tick(
            before,
            before.follower,
            NextStep::Replan { legs: before.legs },
            after,
            outcome,
        ) && next_nonce == nonce
    } else {
        exists|ready: ActiveFollower| #[trigger]
            before.follower.readies(frame.can_sprint, ready) && walking_tick(
                before.checked(frame.fall_limit),
                request,
                terrain,
                frame,
                settings,
                nonce,
                ready,
                after,
                outcome,
                next_nonce,
            )
    }
}

/// Decides one tick of a navigation.
pub fn tick_navigation<W: WorldView + ?Sized>(
    active: &mut ActiveNavigation,
    request: &NavigationRequest,
    world: &W,
    settings: &PathfinderSettings,
    frame: &NavigationFrame,
    nonces: &mut NonceAllocator,
) -> (outcome: TickOutcome)
    requires
        old(active).wf(),
    ensures
        final(active).wf(),
        navigation_tick(
            *old(active),
            *request,
            world.terrain(),
            frame,
            *settings,
            old(nonces).upcoming(),
            *final(active),
            outcome,
            final(nonces).upcoming(),
        ),
{
    let generation: u64 = request.generation;
    let ghost nonce = nonces.upcoming();
    if frame.body.paused {
        let directive = active.follower.tick(&UnavailableWorld, &frame.body, nonces);
        let ghost walked = active.follower;
        assert(old(active).follower.ticks(
            nonce,
            world::unknown_terrain(),
            &frame.body,
            directive,
            walked,
            nonces.upcoming(),
        ));
        let observations = active.follower.drain_observations();
        return TickOutcome {
            decision: Decision {
                movement: Movement::Stop,
                next: NextStep::Keep(NavigationStatus::Paused { generation }),
                blame: None,
            },
            observations,
        };
    }
    let falls_safe: bool = active.checked_fall_limit == frame.fall_limit
        || remaining_falls_are_survivable(
        active.follower.path(),
        active.follower.current_node_index(),
        frame.fall_limit,
    );
    assert(falls_safe == active.falls_are_safe(frame.fall_limit));
    if falls_safe {
        active.checked_fall_limit = frame.fall_limit;
    }
    let ghost before = *active;
    assert(before == old(active).checked(frame.fall_limit));
    if frame.body.on_ground && !falls_safe {
        let legs: u32 = active.legs;
        let observations = active.follower.stop(InterruptionReason::WorldChanged);
        return TickOutcome {
            decision: Decision {
                movement: Movement::Stop,
                next: NextStep::Replan { legs },
                blame: None,
            },
            observations,
        };
    }
    if !frame.can_sprint {
        active.follower.disable_observations(InterruptionReason::Unknown);
    }
    let ghost ready = active.follower;
    assert(old(active).follower.readies(frame.can_sprint, ready));
    let (low, high) = follower_snapshot_bounds(
        frame.body.feet,
        active.follower.path(),
        active.follower.current_node_index(),
        &settings.follower,
    );
    let snapshot = match WorldSnapshot::try_capture(world, low, high) {
        Ok(snapshot) => snapshot,
        Err(_) => {
            let observations = active.follower.stop(InterruptionReason::WorldChanged);
            return TickOutcome {
                decision: Decision {
                    movement: Movement::Stop,
                    next: NextStep::Finish(NavigationStatus::Failed { generation }),
                    blame: None,
                },
                observations,
            };
        },
    };
    let directive = active.follower.tick(&snapshot, &frame.body, nonces);
    let ghost walked = active.follower;
    assert(snapshot.captures(world.terrain(), low, high));
    assert(ready.ticks(
        nonce,
        snapshot.terrain(),
        &frame.body,
        directive,
        walked,
        nonces.upcoming(),
    ));
    let mut observations = active.follower.drain_observations();
    let ghost quiet = active.follower;
    let ghost first = observations@;
    let decision = active.decide(
        directive,
        frame.body.feet,
        frame.can_sprint,
        generation,
        settings,
    );
    assert(decision == decided(
        before,
        directive,
        frame.body.feet,
        frame.can_sprint,
        generation,
        *settings,
    ));
    let kept: bool = match decision.next {
        NextStep::Keep(_) => true,
        _ => false,
    };
    if !kept {
        return TickOutcome { decision, observations };
    }
    active.dynamic_ticks = active.dynamic_ticks.saturating_add(1);
    let moving: bool = match request.goal {
        NavigationGoal::Dynamic { .. } => true,
        NavigationGoal::Fixed(_) => false,
    };
    if moving && settings.dynamic_replan_ticks > 0 && active.dynamic_ticks
        >= settings.dynamic_replan_ticks {
        let legs: u32 = active.legs;
        let mut more = active.follower.stop(InterruptionReason::GoalChanged);
        let ghost second = more@;
        observations.append(&mut more);
        proof {
            assert(walked.drains(first, quiet));
            assert(quiet.stops(InterruptionReason::GoalChanged, second, active.follower));
            assert(observations@ =~= first + second);
        }
        return TickOutcome {
            decision: Decision {
                movement: decision.movement,
                next: NextStep::Replan { legs },
                blame: decision.blame,
            },
            observations,
        };
    }
    TickOutcome { decision, observations }
}

/// A journey ends in a bounded number of failed legs: each one uses up a leg,
/// and the last one fails the journey.
pub proof fn journeys_use_up_their_legs(legs: u32, max_plan_legs: u32, generation: u64)
    ensures
        match next_leg(legs, max_plan_legs, generation) {
            NextStep::Replan { legs: more } => more == legs + 1 && more <= arith::max_int(
                max_plan_legs as int,
                1,
            ),
            NextStep::Finish(status) => status == (NavigationStatus::Failed { generation })
                && legs >= arith::max_int(max_plan_legs as int, 1),
            NextStep::Keep(_) => false,
        },
{
}

/// An actor that cannot sprint is never told to.
pub proof fn hungry_actors_never_sprint(
    active: ActiveNavigation,
    directive: FollowerDirective,
    feet: BlockPos,
    generation: u64,
    settings: PathfinderSettings,
)
    ensures
        decided(active, directive, feet, false, generation, settings).movement matches Movement::Advance {
            sprint,
            ..
        } ==> !sprint,
{
}

} // verus!
