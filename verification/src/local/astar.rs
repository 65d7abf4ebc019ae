//! Resumable best-first search over the block graph.
use vstd::prelude::*;
use vstd::multiset::Multiset;

use crate::adaptive::model::CostModelSnapshot;
use crate::arith;
use crate::frontier;
use crate::frontier::OpenEntry;
use crate::local::clock::{Clock, RunningClock};
use crate::local::course;
use crate::local::goal::{BlockGoal, Goal};
use crate::local::graph_model;
use crate::local::graph_model::{Hop, Problem};
use crate::local::moves::{Move, MoveContext};
use crate::local::pace;
use crate::local::pace::{Check, Ending, Occasion};
use crate::local::tolls;
use crate::local::tolls::water_risk;
use crate::local::tree;
use crate::local::tree::{NodeData, Setup, Tree};
use crate::local::world::WorldView;
use crate::planning;
use crate::planning::{MotionPlan, MotionPlanError, MotionStep};
use crate::pos::BlockPos;
use crate::types::{Cost, MoveKind, Path, PathError, PathNode};

verus! {

pub const MAX_CANDIDATES_PER_MOVE: usize = 4_096;

/// Externally maintained revisions frozen into a resumable search.
///
/// `MoveContext` itself is immutably borrowed for the session lifetime. These
/// numbers cover state not represented by that borrow, such as a mutable world
/// snapshot generation or a newly promoted adaptive cost model.
#[derive(Clone, Copy, PartialEq, Eq, Structural, Debug)]
pub struct SearchAssumptions {
    pub world_revision: u64,
    pub cost_revision: u64,
}

impl Default for SearchAssumptions {
    fn default() -> (assumptions: SearchAssumptions)
        ensures
            assumptions == (SearchAssumptions { world_revision: 0, cost_revision: 0 }),
    {
        SearchAssumptions { world_revision: 0, cost_revision: 0 }
    }
}

/// The part of a frozen search assumption that changed.
#[derive(Clone, Copy, PartialEq, Eq, Structural, Debug)]
pub enum RevisionKind {
    World,
    Cost,
    Goal,
}

/// Why a resumed search was rejected without changing its frontier.
#[derive(Clone, Copy, PartialEq, Eq, Structural, Debug)]
pub struct RevisionMismatch {
    pub kind: RevisionKind,
    pub expected: u64,
    pub actual: u64,
}

/// A cooperative amount of work for [`SearchSession::advance`].
#[derive(Clone, Copy, PartialEq, Eq, Structural, Debug)]
pub struct SearchSlice {
    /// Maximum non-stale nodes whose outgoing edges may be generated.
    pub max_expansions: usize,
    /// Optional wall-clock limit for this call, in nanoseconds. This is
    /// independent of the cumulative hard limit in
    /// [`MoveContext::time_budget_ms`].
    pub time_budget: Option<u128>,
}

impl SearchSlice {
    pub fn new(max_expansions: usize) -> (slice: SearchSlice)
        ensures
            slice == (SearchSlice { max_expansions, time_budget: None }),
    {
        SearchSlice { max_expansions, time_budget: None }
    }

    /// Limits the slice to `nanos` nanoseconds of wall-clock time.
    pub fn with_time_budget(self, nanos: u128) -> (slice: SearchSlice)
        ensures
            slice == (SearchSlice {
                max_expansions: self.max_expansions,
                time_budget: Some(nanos),
            }),
    {
        SearchSlice { max_expansions: self.max_expansions, time_budget: Some(nanos) }
    }

    pub fn unlimited() -> (slice: SearchSlice)
        ensures
            slice == (SearchSlice { max_expansions: usize::MAX, time_budget: None }),
    {
        Self::new(usize::MAX)
    }
}

impl Default for SearchSlice {
    fn default() -> (slice: SearchSlice)
        ensures
            slice == (SearchSlice { max_expansions: 2_048, time_budget: Some(5_000_000) }),
    {
        Self::new(2_048).with_time_budget(5_000_000)
    }
}

/// Result of advancing a resumable search.
#[derive(Debug)]
pub enum SearchStatus {
    /// The frontier and all caches remain available for another slice.
    InProgress,
    /// An optimal path was popped from the frontier.
    Found(Path),
    /// Every reachable node was considered without satisfying the goal.
    Exhausted,
    /// The cumulative expansion or wall-clock budget was reached.
    BudgetExhausted,
    /// A goal or checked external revision changed. No search work was done.
    Invalidated(RevisionMismatch),
}

impl Clone for SearchStatus {
    fn clone(&self) -> (copy: SearchStatus)
        ensures
            match (*self, copy) {
                (SearchStatus::Found(path), SearchStatus::Found(other)) => {
                    &&& other.nodes@ == path.nodes@
                    &&& other.total_cost == path.total_cost
                },
                (SearchStatus::Found(_), _) | (_, SearchStatus::Found(_)) => false,
                _ => copy == *self,
            },
    {
        match self {
            SearchStatus::InProgress => SearchStatus::InProgress,
            SearchStatus::Found(path) => SearchStatus::Found(path.clone()),
            SearchStatus::Exhausted => SearchStatus::Exhausted,
            SearchStatus::BudgetExhausted => SearchStatus::BudgetExhausted,
            SearchStatus::Invalidated(mismatch) => SearchStatus::Invalidated(*mismatch),
        }
    }
}

/// A final answer of a search.
#[derive(Debug)]
enum TerminalStatus {
    Found(Path),
    Exhausted,
    BudgetExhausted,
}

/// The mathematical content of an answer.
pub enum Verdict {
    Open,
    Found { nodes: Seq<PathNode>, cost: Cost },
    Exhausted,
    BudgetExhausted,
}

/// Whether a status reports `verdict`.
pub open spec fn reports(status: SearchStatus, verdict: Verdict) -> bool {
    match (status, verdict) {
        (SearchStatus::InProgress, Verdict::Open) => true,
        (SearchStatus::Found(path), Verdict::Found { nodes, cost }) => path.nodes@ == nodes
            && path.total_cost == cost,
        (SearchStatus::Exhausted, Verdict::Exhausted) => true,
        (SearchStatus::BudgetExhausted, Verdict::BudgetExhausted) => true,
        _ => false,
    }
}

/// How good a position is as a partial result: lava danger, then forbidden
/// water, then the goal's own ranking.
pub open spec fn standing<M: Move, G: Goal + ?Sized>(
    problem: Problem<M>,
    goal: &G,
    pos: BlockPos,
) -> (int, int, int) {
    (
        tolls::lava_danger(problem.terrain, pos, &problem.ctx) as int,
        if tolls::forbidden_water(problem.terrain, pos, &problem.ctx) {
            1
        } else {
            0
        },
        goal.progress(pos) as int,
    )
}

pub open spec fn outranks(a: (int, int, int), b: (int, int, int)) -> bool {
    a.0 < b.0 || (a.0 == b.0 && (a.1 < b.1 || (a.1 == b.1 && a.2 < b.2)))
}

/// A path that a search may answer with: a real walk from the start to a
/// finishing position that costs no more than stated and, when the estimate is
/// admissible, exactly as stated and no more than any other finishing walk. Of
/// those that cost the same it is the one that the order of the search picks.
pub open spec fn answers<M: Move, G: Goal + ?Sized>(
    problem: Problem<M>,
    goal: &G,
    guided: bool,
    start: BlockPos,
    path: Seq<PathNode>,
    cost: Cost,
) -> bool {
    &&& exists|hops: Seq<Hop>| #[trigger]
        tree::realizes(problem, start, path, hops) && problem.finishes(
            goal,
            problem.end(start, hops),
        ) && arith::clamp_u32(problem.length(start, hops)) <= cost && (problem.admissible(
            goal,
            guided,
        ) ==> cost == arith::clamp_u32(problem.length(start, hops)))
    &&& problem.admissible(goal, guided) ==> problem.optimal(goal, start, cost)
    &&& course::chosen(problem, goal, guided, start, path, cost)
}

/// Whether a search asks for more than it may expand: for more positions than
/// the budget allows, or more transitions than a rule may offer from one. A
/// position is expanded again only at a lower cost, and with a consistent
/// estimate never.
pub open spec fn overtaxed<M: Move, G: Goal + ?Sized>(
    problem: Problem<M>,
    goal: &G,
    guided: bool,
    start: BlockPos,
    work: nat,
) -> bool {
    ||| problem.oversized(start, MAX_CANDIDATES_PER_MOVE as nat)
    ||| {
        &&& work >= problem.ctx.max_expansions
        &&& !problem.few_arrivals(start, problem.ctx.max_expansions as nat)
        &&& problem.consistent(goal, guided) && !problem.overflows(goal, guided, start)
            ==> !problem.confined(start, problem.ctx.max_expansions as nat)
    }
}

/// Whether a search may ask for more than it may expand.
pub open spec fn taxing<M: Move, G: Goal + ?Sized>(
    problem: Problem<M>,
    goal: &G,
    start: BlockPos,
) -> bool {
    let guided = problem.guided(goal, start);
    ||| problem.oversized(start, MAX_CANDIDATES_PER_MOVE as nat)
    ||| {
        &&& !problem.few_arrivals(start, problem.ctx.max_expansions as nat)
        &&& problem.consistent(goal, guided) && !problem.overflows(goal, guided, start)
            ==> !problem.confined(start, problem.ctx.max_expansions as nat)
    }
}

/// Whether a cumulative budget of a search is spent: its time or its work.
pub open spec fn budget_spent<M: Move, G: Goal + ?Sized>(
    problem: Problem<M>,
    goal: &G,
    guided: bool,
    start: BlockPos,
    work: nat,
    time_spent: u128,
) -> bool {
    ||| time_spent >= problem.ctx.time_budget_ms * 1_000_000
    ||| overtaxed(problem, goal, guided, start, work)
}

/// A partial path: a real walk from the start that costs no more than stated.
pub open spec fn partial_walk<M: Move>(
    problem: Problem<M>,
    start: BlockPos,
    path: Seq<PathNode>,
    cost: Cost,
) -> bool {
    exists|hops: Seq<Hop>| #[trigger]
        tree::realizes(problem, start, path, hops) && arith::clamp_u32(
            problem.length(start, hops),
        ) <= cost
}

/// A partial path that got somewhere better than its start, or stays there.
pub open spec fn progresses<M: Move, G: Goal + ?Sized>(
    problem: Problem<M>,
    goal: &G,
    start: BlockPos,
    path: Seq<PathNode>,
    cost: Cost,
) -> bool {
    (path.len() == 1 && cost == 0) || outranks(
        standing(problem, goal, path.last().pos),
        standing(problem, goal, start),
    )
}

/// A partial path is a cheapest walk to where it ends, at its exact cost,
/// provided the estimate is consistent and costs fit their range.
pub open spec fn direct<M: Move, G: Goal + ?Sized>(
    problem: Problem<M>,
    goal: &G,
    guided: bool,
    start: BlockPos,
    path: Seq<PathNode>,
    cost: Cost,
) -> bool {
    problem.consistent(goal, guided) ==> problem.overflows(goal, guided, start) || {
        &&& problem.cheapest(start, path.last().pos, cost as int)
        &&& exists|hops: Seq<Hop>| #[trigger]
            tree::realizes(problem, start, path, hops) && arith::clamp_u32(
                problem.length(start, hops),
            ) == cost
    }
}

/// Whether a path follows recorded parents to a node with the path's cost.
pub open spec fn records(
    nodes: Map<BlockPos, NodeData>,
    start: BlockPos,
    path: Seq<PathNode>,
    cost: Cost,
) -> bool {
    tree::traces(nodes, start, path.last().pos, path) && nodes[path.last().pos].g == cost
}

/// Nothing that can be reached finishes.
pub open spec fn unreachable_goal<M: Move, G: Goal + ?Sized>(
    problem: Problem<M>,
    goal: &G,
    start: BlockPos,
) -> bool {
    forall|hops: Seq<Hop>|
        problem.walkable(start, hops) ==> !problem.finishes(
            goal,
            #[trigger] problem.end(start, hops),
        )
}

/// What is wrong with the transition into node `i` of a path, if anything.
pub open spec fn edge_fault(
    nodes: Map<BlockPos, NodeData>,
    path: Seq<PathNode>,
    i: int,
) -> Option<MotionPlanError> {
    let data = nodes[path[i].pos];
    if !nodes.contains_key(path[i].pos) {
        Some(MotionPlanError::MissingGeneratedMetadata)
    } else if data.parent != Some(path[i - 1].pos) || data.reached_by != path[i].reached_by {
        Some(MotionPlanError::MetadataMismatch)
    } else if data.metadata is None {
        Some(MotionPlanError::MissingGeneratedMetadata)
    } else {
        None
    }
}

/// The first faulty transition at or after node `i`.
pub open spec fn first_edge_fault(
    nodes: Map<BlockPos, NodeData>,
    path: Seq<PathNode>,
    i: int,
) -> Option<MotionPlanError>
    decreases path.len() - i,
{
    if i >= path.len() {
        None
    } else {
        match edge_fault(nodes, path, i) {
            Some(fault) => Some(fault),
            None => first_edge_fault(nodes, path, i + 1),
        }
    }
}

/// Why a path cannot be joined with recorded metadata, if it cannot.
pub open spec fn plan_fault(
    nodes: Map<BlockPos, NodeData>,
    path: Seq<PathNode>,
    cost: Cost,
) -> Option<MotionPlanError> {
    if path.len() == 0 {
        Some(MotionPlanError::MetadataMismatch)
    } else if !nodes.contains_key(path[0].pos) {
        Some(MotionPlanError::MissingGeneratedMetadata)
    } else if path[0].reached_by != MoveKind::Start || nodes[path[0].pos].parent is Some
        || nodes[path[0].pos].reached_by != MoveKind::Start {
        Some(MotionPlanError::MetadataMismatch)
    } else if !nodes.contains_key(path.last().pos) {
        Some(MotionPlanError::MissingGeneratedMetadata)
    } else if nodes[path.last().pos].g != cost {
        Some(MotionPlanError::MetadataMismatch)
    } else {
        first_edge_fault(nodes, path, 1)
    }
}

pub open spec fn recorded_step(
    nodes: Map<BlockPos, NodeData>,
    path: Seq<PathNode>,
    i: int,
) -> MotionStep {
    let metadata = nodes[path[i + 1].pos].metadata->0;
    MotionStep {
        edge_index: i as u32,
        from: path[i].pos,
        to: path[i + 1].pos,
        kind: path[i + 1].reached_by,
        primitive: metadata.primitive,
        features: metadata.features,
        predicted: metadata.predicted,
        predicted_ticks: metadata.predicted_ticks,
    }
}

/// The steps of a path with the metadata recorded for each of its nodes.
pub open spec fn recorded_steps(
    nodes: Map<BlockPos, NodeData>,
    path: Seq<PathNode>,
) -> Seq<MotionStep> {
    Seq::new((path.len() - 1) as nat, |i: int| recorded_step(nodes, path, i))
}

/// Stateful best-first search that can be advanced in bounded slices.
///
/// The world, movement registry, goal and movement context are borrowed for
/// the full lifetime of the session, freezing the cost/validation assumptions
/// represented by those values. Use [`SearchSession::advance_checked`] when
/// the world snapshot or adaptive model has an application-owned revision.
pub struct SearchSession<'a, W: WorldView + ?Sized, G: Goal + ?Sized, M: Move> {
    setup: Setup<'a, W, G, M>,
    goal_revision: u64,
    assumptions: SearchAssumptions,
    tree: Tree,
    best_lava_risk: Cost,
    best_water_risk: u8,
    best_progress: u64,
    best: (BlockPos, Cost),
    expansions: usize,
    hard_time_budget: u128,
    elapsed_compute: u128,
    terminal: Option<TerminalStatus>,
}

/// What came off the front of the frontier.
enum Taken {
    /// The frontier is empty.
    Nothing,
    /// The entry was queued before its node improved.
    Stale,
    /// The node completes the search.
    Finish(Path),
    /// The node is to be expanded.
    Node(BlockPos, Cost),
}

/// What one turn of a search comes to.
pub enum Turn {
    /// The call ends.
    Over(SearchStatus),
    /// An outdated entry was dropped, and the call goes on.
    Dropped,
    /// A node was expanded, and the call goes on.
    Expanded,
}

/// Whether two sessions are of the same search.
pub open spec fn same_search<W: WorldView + ?Sized, G: Goal + ?Sized, M: Move>(
    before: SearchSession<'_, W, G, M>,
    after: SearchSession<'_, W, G, M>,
) -> bool {
    &&& after.problem() == before.problem()
    &&& after.destination() == before.destination()
    &&& after.origin() == before.origin()
    &&& after.guided() == before.guided()
    &&& after.frozen() == before.frozen()
    &&& after.frozen_goal_revision() == before.frozen_goal_revision()
}

/// Whether a search stands where it stood.
pub open spec fn idle<W: WorldView + ?Sized, G: Goal + ?Sized, M: Move>(
    before: SearchSession<'_, W, G, M>,
    after: SearchSession<'_, W, G, M>,
) -> bool {
    &&& after.work() == before.work()
    &&& after.reached() == before.reached()
    &&& after.queued() == before.queued()
    &&& after.visits() == before.visits()
    &&& after.best_position() == before.best_position()
    &&& after.best_cost() == before.best_cost()
}

/// The nanoseconds that a session has left.
pub open spec fn time_left<W: WorldView + ?Sized, G: Goal + ?Sized, M: Move>(
    session: SearchSession<'_, W, G, M>,
) -> int {
    session.problem().ctx.time_budget_ms * 1_000_000 - session.time_spent()
}

/// Whether a session has noted that a call took as long as was shown.
pub open spec fn noted<W: WorldView + ?Sized, G: Goal + ?Sized, M: Move>(
    before: SearchSession<'_, W, G, M>,
    after: SearchSession<'_, W, G, M>,
    shown: u128,
) -> bool {
    after.time_spent() == arith::clamp_u128(before.time_spent() + shown)
}

/// What a turn of a search with time left does: it drops an outdated entry,
/// expands a node or answers the search. It reads the clock again before it
/// expands and after it answers, and expands only within the limit.
pub open spec fn action_law<W: WorldView + ?Sized, G: Goal + ?Sized, M: Move>(
    before: SearchSession<'_, W, G, M>,
    after: SearchSession<'_, W, G, M>,
    log: Seq<u128>,
    log_after: Seq<u128>,
    turn: Turn,
) -> bool {
    let again = log_after == log.push(log_after.last());
    &&& same_search(before, after)
    &&& tree::refines(before.reached(), after.reached())
    &&& before.visits().subset_of(after.visits())
    &&& after.work() == before.work() ==> after.reached() == before.reached()
    &&& match turn {
        Turn::Over(status) => reports(status, after.verdict()),
        _ => after.verdict() is Open,
    }
    &&& match turn {
        Turn::Dropped => {
            &&& log_after == log
            &&& after.time_spent() == before.time_spent()
            &&& after.work() == before.work()
            &&& after.queued().len() < before.queued().len()
        },
        Turn::Expanded => {
            &&& again
            &&& log_after.last() < time_left(before)
            &&& after.time_spent() == before.time_spent()
            &&& after.work() == before.work() + 1
        },
        Turn::Over(SearchStatus::Found(path)) => {
            &&& again
            &&& noted(before, after, log_after.last())
            &&& after.work() == before.work()
            &&& answers(
                before.problem(),
                before.destination(),
                before.guided(),
                before.origin(),
                path.nodes@,
                path.total_cost,
            )
            &&& records(after.reached(), before.origin(), path.nodes@, path.total_cost)
        },
        Turn::Over(SearchStatus::Exhausted) => {
            &&& again
            &&& noted(before, after, log_after.last())
            &&& after.work() == before.work()
            &&& unreachable_goal(before.problem(), before.destination(), before.origin())
            &&& forall|pos: BlockPos| #[trigger]
                after.reached().contains_key(pos) ==> !after.waiting(pos)
        },
        Turn::Over(SearchStatus::BudgetExhausted) => {
            &&& again
            &&& noted(before, after, log_after.last())
            &&& before.work() <= after.work() <= before.work() + 1
            &&& log_after.last() >= time_left(before) ==> after.work() == before.work()
            &&& log_after.last() < time_left(before) ==> overtaxed(
                before.problem(),
                before.destination(),
                before.guided(),
                before.origin(),
                after.work(),
            )
        },
        Turn::Over(_) => false,
    }
}

/// What one turn of a search does when the clock shows `spent` before it and the
/// slice has done `done` expansions. A spent limit ends the call with nothing else
/// changed.
pub open spec fn turn_law<W: WorldView + ?Sized, G: Goal + ?Sized, M: Move>(
    before: SearchSession<'_, W, G, M>,
    after: SearchSession<'_, W, G, M>,
    slice: SearchSlice,
    done: int,
    spent: u128,
    log: Seq<u128>,
    log_after: Seq<u128>,
    turn: Turn,
) -> bool {
    if spent >= time_left(before) {
        &&& turn == Turn::Over(SearchStatus::BudgetExhausted)
        &&& after.verdict() is BudgetExhausted
        &&& same_search(before, after)
        &&& idle(before, after)
        &&& noted(before, after, spent)
        &&& log_after == log
    } else if pace::slice_over(slice, done, spent) {
        &&& turn == Turn::Over(SearchStatus::InProgress)
        &&& after.verdict() is Open
        &&& same_search(before, after)
        &&& idle(before, after)
        &&& noted(before, after, spent)
        &&& log_after == log
    } else {
        action_law(before, after, log, log_after, turn)
    }
}

/// How a status ends a call.
pub open spec fn ending_of(status: SearchStatus) -> Ending {
    match status {
        SearchStatus::InProgress => Ending::Paused,
        SearchStatus::BudgetExhausted => Ending::Spent,
        _ => Ending::Answered,
    }
}

/// What one call of [`SearchSession::advance_on`] makes of its clock. A call that
/// works goes on after every reading but its last, which ends it, and one that
/// ends with its first leaves the search where it stood; the others take no
/// reading.
pub open spec fn pace_law<W: WorldView + ?Sized, G: Goal + ?Sized, M: Move>(
    before: SearchSession<'_, W, G, M>,
    after: SearchSession<'_, W, G, M>,
    slice: SearchSlice,
    status: SearchStatus,
    log: Seq<u128>,
    log_after: Seq<u128>,
) -> bool {
    let readings = pace::since(log, log_after);
    &&& pace::extends(log, log_after)
    &&& if before.verdict() is Open && slice.max_expansions > 0 && !(status is Invalidated) {
        &&& pace::explained(
            readings,
            time_left(before),
            before.work(),
            slice,
            ending_of(status),
            after.work(),
        )
        &&& noted(before, after, readings.last())
        &&& readings.len() == 1 ==> idle(before, after)
    } else {
        readings.len() == 0
    }
}

/// What one call of [`SearchSession::advance`] may do to a session.
pub open spec fn advance_law<W: WorldView + ?Sized, G: Goal + ?Sized, M: Move>(
    before: SearchSession<'_, W, G, M>,
    after: SearchSession<'_, W, G, M>,
    slice: SearchSlice,
    status: SearchStatus,
) -> bool {
    &&& after.problem() == before.problem()
    &&& after.destination() == before.destination()
    &&& after.origin() == before.origin()
    &&& after.guided() == before.guided()
    &&& after.frozen() == before.frozen()
    &&& after.frozen_goal_revision() == before.frozen_goal_revision()
    // Work is bounded, cumulative, and never forgets a reached position.
    &&& tree::refines(before.reached(), after.reached())
    &&& before.work() <= after.work() <= before.work() + slice.max_expansions
    &&& after.work() <= before.problem().ctx.max_expansions
    &&& before.time_spent() <= after.time_spent()
    // Without time left, a slice does nothing but say so.
    &&& before.verdict() is Open && slice.max_expansions > 0 && !(status is Invalidated)
        && time_left(before) <= 0 ==> status is BudgetExhausted && idle(before, after)
    &&& after.work() == before.work() ==> after.reached() == before.reached()
    // A slice of no duration yields before any work.
    &&& before.verdict() is Open && slice.max_expansions > 0 && !(status is Invalidated)
        && slice.time_budget == Some(0u128) ==> (status is InProgress
        || status is BudgetExhausted) && idle(before, after)
    // Positions are examined and expanded in the order of the search.
    &&& before.visits().subset_of(after.visits())
    &&& after.verdict() is Open ==> after.on_course()
    // A slice stops early only with an answer or when its clock has run out.
    &&& status is InProgress ==> after.work() == before.work() + slice.max_expansions || (
    slice.time_budget matches Some(budget) && after.time_spent() >= arith::clamp_u128(
        before.time_spent() + budget,
    ))
    // Zero slices, answered sessions and rejected calls change nothing.
    &&& slice.max_expansions == 0 || !(before.verdict() is Open) || status is Invalidated ==> after
        == before
    &&& !(status is Invalidated) ==> reports(status, after.verdict())
    &&& match status {
        SearchStatus::Found(path) => {
            &&& answers(
                before.problem(),
                before.destination(),
                before.guided(),
                before.origin(),
                path.nodes@,
                path.total_cost,
            )
            &&& records(after.reached(), before.origin(), path.nodes@, path.total_cost)
        },
        SearchStatus::Exhausted => {
            &&& unreachable_goal(before.problem(), before.destination(), before.origin())
            &&& forall|pos: BlockPos| #[trigger]
                after.reached().contains_key(pos) ==> !after.waiting(pos)
        },
        SearchStatus::BudgetExhausted => before.verdict() is Open ==> budget_spent(
            before.problem(),
            before.destination(),
            before.guided(),
            before.origin(),
            after.work(),
            after.time_spent(),
        ),
        _ => true,
    }
}

/// What one call of [`SearchSession::advance_on`] does when every reading of
/// its clock shows the same time: it runs out of time at once or not at all.
pub open spec fn timed_law<W: WorldView + ?Sized, G: Goal + ?Sized, M: Move>(
    before: SearchSession<'_, W, G, M>,
    after: SearchSession<'_, W, G, M>,
    slice: SearchSlice,
    status: SearchStatus,
    shown: u128,
) -> bool {
    before.verdict() is Open && slice.max_expansions > 0 && !(status is Invalidated) ==> {
        &&& after.time_spent() == arith::clamp_u128(before.time_spent() + shown)
        &&& if before.time_spent() + shown >= before.problem().ctx.time_budget_ms * 1_000_000 {
            &&& status is BudgetExhausted
            &&& idle(before, after)
        } else {
            &&& status is BudgetExhausted ==> overtaxed(
                before.problem(),
                before.destination(),
                before.guided(),
                before.origin(),
                after.work(),
            )
            &&& (slice.time_budget matches Some(budget) && shown >= budget) ==> {
                &&& status is InProgress
                &&& idle(before, after)
            }
            &&& status is InProgress ==> after.work() == before.work() + slice.max_expansions || (
            slice.time_budget matches Some(budget) && shown >= budget)
        }
    }
}

/// What running a session to its end may answer.
pub open spec fn run_law<W: WorldView + ?Sized, G: Goal + ?Sized, M: Move>(
    before: SearchSession<'_, W, G, M>,
    after: SearchSession<'_, W, G, M>,
    status: SearchStatus,
) -> bool {
    &&& after.problem() == before.problem()
    &&& after.destination() == before.destination()
    &&& after.origin() == before.origin()
    &&& after.guided() == before.guided()
    &&& !(status is Invalidated) ==> reports(status, after.verdict())
    &&& before.verdict() is Open && time_left(before) <= 0 ==> late(before, after, status)
    &&& match status {
        SearchStatus::InProgress => false,
        SearchStatus::Found(path) => {
            &&& answers(
                before.problem(),
                before.destination(),
                before.guided(),
                before.origin(),
                path.nodes@,
                path.total_cost,
            )
            &&& records(after.reached(), before.origin(), path.nodes@, path.total_cost)
        },
        SearchStatus::Exhausted => unreachable_goal(
            before.problem(),
            before.destination(),
            before.origin(),
        ),
        SearchStatus::BudgetExhausted => true,
        SearchStatus::Invalidated(_) => before.destination().settled_revision() is None,
    }
}

/// Whether a call came too late to do anything.
pub open spec fn late<W: WorldView + ?Sized, G: Goal + ?Sized, M: Move>(
    before: SearchSession<'_, W, G, M>,
    after: SearchSession<'_, W, G, M>,
    status: SearchStatus,
) -> bool {
    (status is BudgetExhausted || status is Invalidated) && idle(before, after)
}

/// Whether a clock that always shows `shown` leaves a search of `left` nanoseconds
/// with the time it needs. A search that may expand as often as a counter can
/// count might take more than one call.
pub open spec fn leaves_time(shown: u128, left: int, max_expansions: usize) -> bool {
    shown < left && (shown == 0 || max_expansions < usize::MAX)
}

/// On a clock that always shows `shown`, an open session comes too late, or ends
/// without an answer only when it asks for more than it may expand.
pub open spec fn prompt_law<W: WorldView + ?Sized, G: Goal + ?Sized, M: Move>(
    before: SearchSession<'_, W, G, M>,
    after: SearchSession<'_, W, G, M>,
    status: SearchStatus,
    shown: u128,
) -> bool {
    before.verdict() is Open ==> {
        &&& shown >= time_left(before) ==> late(before, after, status)
        &&& leaves_time(shown, time_left(before), before.problem().ctx.max_expansions)
            && status is BudgetExhausted ==> overtaxed(
            before.problem(),
            before.destination(),
            before.guided(),
            before.origin(),
            after.work(),
        )
    }
}

/// A slice without limits.
pub open spec fn whole() -> SearchSlice {
    SearchSlice { max_expansions: usize::MAX, time_budget: None }
}

/// Whether a clock that does not run has shown the same since its log was `log`.
spec fn steady(reading: Option<u128>, log: Seq<u128>, log_after: Seq<u128>) -> bool {
    reading matches Some(shown) ==> forall|i: int|
        log.len() <= i < log_after.len() ==> #[trigger] log_after[i] == shown
}

/// The last turn of a call ends it as its laws say.
proof fn lemma_over<W: WorldView + ?Sized, G: Goal + ?Sized, M: Move>(
    entry: SearchSession<'_, W, G, M>,
    prior: SearchSession<'_, W, G, M>,
    after: SearchSession<'_, W, G, M>,
    slice: SearchSlice,
    done: int,
    spent: u128,
    checks: Seq<Check>,
    log: Seq<u128>,
    log_before: Seq<u128>,
    log_after: Seq<u128>,
    status: SearchStatus,
)
    requires
        entry.verdict() is Open,
        prior.verdict() is Open,
        after.wf(),
        slice.max_expansions > 0,
        same_search(entry, prior),
        prior.work() == entry.work() + done,
        0 <= done <= slice.max_expansions,
        prior.time_spent() == entry.time_spent(),
        tree::refines(entry.reached(), prior.reached()),
        entry.visits().subset_of(prior.visits()),
        prior.work() == entry.work() ==> prior.reached() == entry.reached(),
        checks.len() == 0 ==> prior == entry,
        pace::keeps_pace(checks, time_left(entry), entry.work(), slice),
        prior.work() == pace::work_since(checks, entry.work()),
        log_before == (log + pace::shown(checks)).push(spent),
        turn_law(
            prior,
            after,
            slice,
            done,
            spent,
            log_before,
            log_after,
            Turn::Over(status),
        ),
    ensures
        !(status is Invalidated),
        advance_law(entry, after, slice, status),
        pace_law(entry, after, slice, status, log, log_after),
{
    let left = time_left(entry);
    let base = entry.work();
    let check = Check { occasion: Occasion::Turn, shown: spent, work: prior.work() };
    let ending = ending_of(status);
    if checks.len() > 0 {
        assert(pace::goes_on(checks[0], left, base, slice));
    }
    if after.verdict() is Open {
        after.open_sessions_are_on_course();
    }
    if spent >= left || pace::slice_over(slice, done, spent) {
        pace::lemma_pace_ended(checks, left, base, slice, check, ending, after.work());
        assert(pace::since(log, log_after) =~= pace::shown(checks).push(spent));
    } else {
        let last = Check {
            occasion: if status is BudgetExhausted {
                Occasion::Expansion
            } else {
                Occasion::Answer
            },
            shown: log_after.last(),
            work: prior.work(),
        };
        pace::lemma_pace_kept(checks, left, base, slice, check);
        pace::lemma_pace_ended(
            checks.push(check),
            left,
            base,
            slice,
            last,
            ending,
            after.work(),
        );
        assert(pace::since(log, log_after) =~= pace::shown(checks).push(spent).push(last.shown));
    }
}

/// A call on a clock that does not run ends as its readings say.
proof fn lemma_timed<W: WorldView + ?Sized, G: Goal + ?Sized, M: Move>(
    before: SearchSession<'_, W, G, M>,
    after: SearchSession<'_, W, G, M>,
    slice: SearchSlice,
    status: SearchStatus,
    log: Seq<u128>,
    log_after: Seq<u128>,
    shown: u128,
)
    requires
        advance_law(before, after, slice, status),
        pace_law(before, after, slice, status, log, log_after),
        steady(Some(shown), log, log_after),
    ensures
        timed_law(before, after, slice, status, shown),
{
    if before.verdict() is Open && slice.max_expansions > 0 && !(status is Invalidated) {
        let readings = pace::since(log, log_after);
        let left = time_left(before);
        let base = before.work();
        let checks = choose|checks: Seq<Check>| #[trigger]
            pace::paced(checks, left, base, slice, ending_of(status), after.work())
                && pace::shown(checks) == readings;
        assert(readings.len() > 0);
        assert(readings[0] == log_after[log.len() as int]);
        assert(readings.last() == log_after[log_after.len() - 1]);
        if shown >= left || pace::slice_over(slice, 0, shown) {
            pace::calls_without_time_do_no_work(
                readings,
                left,
                base,
                slice,
                ending_of(status),
                after.work(),
            );
        }
    }
}

/// What is known and pending is what the course of the search says.
#[verifier::opaque]
spec fn followed<W: WorldView + ?Sized, G: Goal + ?Sized, M: Move>(
    setup: &Setup<'_, W, G, M>,
    tree: &Tree,
    expansions: usize,
) -> bool {
    let problem = setup.problem();
    let guided = setup.use_heuristic;
    let n = expansions as nat;
    let now = course::course_after(problem, setup.goal, guided, setup.start, n);
    &&& tree.nodes@ == now.nodes
    &&& forall|pos: BlockPos| #[trigger]
        tree::pending(tree.nodes@, tree.open@, pos) == now.waiting.contains(pos)
    &&& course::passes(problem, setup.goal, guided, setup.start, n)
}

/// The first that waits was taken and does not finish.
#[verifier::opaque]
spec fn followed_to<W: WorldView + ?Sized, G: Goal + ?Sized, M: Move>(
    setup: &Setup<'_, W, G, M>,
    tree: &Tree,
    expansions: usize,
    at: BlockPos,
) -> bool {
    let problem = setup.problem();
    let guided = setup.use_heuristic;
    let n = expansions as nat;
    let now = course::course_after(problem, setup.goal, guided, setup.start, n);
    &&& tree.nodes@ == now.nodes
    &&& at == course::first_after(problem, setup.goal, guided, setup.start, n)
    &&& !problem.finishes(setup.goal, at)
    &&& forall|pos: BlockPos| #[trigger]
        tree::pending(tree.nodes@, tree.open@, pos) == (pos != at && now.waiting.contains(pos))
    &&& course::passes(problem, setup.goal, guided, setup.start, n)
}

/// A planted tree is at the outset.
proof fn lemma_outset<W: WorldView + ?Sized, G: Goal + ?Sized, M: Move>(
    setup: &Setup<'_, W, G, M>,
    tree: &Tree,
)
    requires
        tree::rooted(tree.nodes@, setup.start),
        tree.nodes@.dom() == set![setup.start],
        tree::pending(tree.nodes@, tree.open@, setup.start),
        tree.sound(setup),
    ensures
        followed(setup, tree, 0),
{
    reveal(followed);
    let now = course::outset(setup.start);
    assert(tree.nodes@.dom() =~= now.nodes.dom());
    assert(tree.nodes@ =~= now.nodes);
    assert forall|pos: BlockPos| #[trigger]
        tree::pending(tree.nodes@, tree.open@, pos) == now.waiting.contains(pos) by {
        if tree::pending(tree.nodes@, tree.open@, pos) {
            assert(tree.nodes@.contains_key(pos));
        }
    }
}

/// Dropping an outdated entry keeps a search on its course.
proof fn lemma_dropped_on_course<W: WorldView + ?Sized, G: Goal + ?Sized, M: Move>(
    setup: &Setup<'_, W, G, M>,
    before: &Tree,
    after: &Tree,
    expansions: usize,
    entry: OpenEntry,
)
    requires
        followed(setup, before, expansions),
        before.sound(setup),
        before.open@.contains(entry),
        entry.g != before.nodes@[entry.pos].g,
        after.nodes@ == before.nodes@,
        after.open@ == before.open@.remove(entry),
    ensures
        followed(setup, after, expansions),
{
    reveal(followed);
    let estimate = |pos: BlockPos| setup.estimate(pos);
    tree::lemma_take(before.nodes@, before.open@, estimate, entry);
}

/// A current entry at the front of the queue is of the first that waits.
proof fn lemma_front_comes_first<W: WorldView + ?Sized, G: Goal + ?Sized, M: Move>(
    setup: &Setup<'_, W, G, M>,
    tree: &Tree,
    expansions: usize,
    entry: OpenEntry,
)
    requires
        followed(setup, tree, expansions),
        tree.sound(setup),
        tree.open@.contains(entry),
        forall|x: OpenEntry| #[trigger]
            tree.open@.contains(x) && x.g == tree.nodes@[x.pos].g ==> frontier::entry_le(entry, x),
        entry.g == tree.nodes@[entry.pos].g,
    ensures
        course::comes_first(
            setup.problem(),
            setup.goal,
            setup.use_heuristic,
            course::course_after(
                setup.problem(),
                setup.goal,
                setup.use_heuristic,
                setup.start,
                expansions as nat,
            ),
            entry.pos,
        ),
        entry.pos == course::first_after(
            setup.problem(),
            setup.goal,
            setup.use_heuristic,
            setup.start,
            expansions as nat,
        ),
{
    reveal(followed);
    let problem = setup.problem();
    let guided = setup.use_heuristic;
    let goal = setup.goal;
    let now = course::course_after(problem, goal, guided, setup.start, expansions as nat);
    assert(tree::pending(tree.nodes@, tree.open@, entry.pos));
    assert(entry == tree::ranked(problem, goal, guided, entry.pos, entry.g));
    assert forall|other: BlockPos| #[trigger] now.waiting.contains(
        other,
    ) implies frontier::entry_le(
        entry,
        tree::ranked(problem, goal, guided, other, now.nodes[other].g),
    ) by {
        assert(tree::pending(tree.nodes@, tree.open@, other));
        let waits = choose|e: OpenEntry| #[trigger]
            tree.open@.contains(e) && e.pos == other && e.g == tree.nodes@[other].g;
        assert(waits == tree::ranked(problem, goal, guided, other, waits.g));
    }
    course::lemma_one_comes_first(problem, goal, guided, now, entry.pos);
}

/// Taking the front of the queue takes the first that waits.
proof fn lemma_taken_on_course<W: WorldView + ?Sized, G: Goal + ?Sized, M: Move>(
    setup: &Setup<'_, W, G, M>,
    before: &Tree,
    after: &Tree,
    expansions: usize,
    entry: OpenEntry,
)
    requires
        followed(setup, before, expansions),
        before.sound(setup),
        before.open@.contains(entry),
        forall|x: OpenEntry| #[trigger]
            before.open@.contains(x) ==> frontier::entry_le(entry, x),
        entry.g == before.nodes@[entry.pos].g,
        !setup.finishes(entry.pos),
        after.nodes@ == before.nodes@,
        after.open@ == before.open@.remove(entry),
    ensures
        followed_to(setup, after, expansions, entry.pos),
{
    lemma_front_comes_first(setup, before, expansions, entry);
    reveal(followed);
    reveal(followed_to);
    reveal(tree::tallied);
    let estimate = |pos: BlockPos| setup.estimate(pos);
    tree::lemma_take(before.nodes@, before.open@, estimate, entry);
    tree::lemma_taken_once(before.nodes@, before.open@, entry);
}

/// Expanding what was taken is one expansion more of the course.
proof fn lemma_expanded_on_course<W: WorldView + ?Sized, G: Goal + ?Sized, M: Move>(
    setup: &Setup<'_, W, G, M>,
    before: &Tree,
    after: &Tree,
    expansions: usize,
    at: BlockPos,
)
    requires
        expansions < usize::MAX,
        followed_to(setup, before, expansions, at),
        after.sound(setup),
        after.nodes@ == tree::spread(setup.problem(), before.nodes@, at),
        tree::pending_anew(before.nodes@, before.open@, after.nodes@, after.open@),
    ensures
        followed(setup, after, (expansions + 1) as usize),
{
    reveal(followed);
    reveal(followed_to);
    reveal(tree::pending_anew);
    let problem = setup.problem();
    let goal = setup.goal;
    let guided = setup.use_heuristic;
    let n = expansions as nat;
    let now = course::course_after(problem, goal, guided, setup.start, n);
    let next = course::course_after(problem, goal, guided, setup.start, n + 1);
    assert(next == course::continued(problem, goal, guided, now));
    assert forall|pos: BlockPos| #[trigger]
        tree::pending(after.nodes@, after.open@, pos) == next.waiting.contains(pos) by {
        if tree::pending(after.nodes@, after.open@, pos) {
            assert(after.nodes@.contains_key(pos));
        }
    }
    assert forall|i: nat| i < n + 1 implies !problem.finishes(
        goal,
        #[trigger] course::first_after(problem, goal, guided, setup.start, i),
    ) by {
        assert(i < n || i == n);
    }
}

/// With a consistent estimate, nodes are examined in order and once each, and
/// the best one is still recorded at the cost it was chosen with.
#[verifier::opaque]
spec fn orderly<W: WorldView + ?Sized, G: Goal + ?Sized, M: Move>(
    setup: &Setup<'_, W, G, M>,
    tree: &Tree,
    best: (BlockPos, Cost),
    expansions: usize,
) -> bool {
    let problem = setup.problem();
    let guided = setup.use_heuristic;
    problem.consistent(setup.goal, guided) ==> problem.overflows(setup.goal, guided, setup.start)
        || {
        &&& tree.ordered(setup)
        &&& tree.nodes@[best.0].g == best.1
        &&& best.0 == setup.start || tree.examined@.contains(best.0)
        &&& expansions <= tree.examined@.len()
    }
}

/// With a consistent estimate, `pos` is the last node examined, and not yet
/// expanded.
#[verifier::opaque]
spec fn taken_in_order<W: WorldView + ?Sized, G: Goal + ?Sized, M: Move>(
    setup: &Setup<'_, W, G, M>,
    tree: &Tree,
    pos: BlockPos,
    expansions: usize,
) -> bool {
    let problem = setup.problem();
    let guided = setup.use_heuristic;
    problem.consistent(setup.goal, guided) ==> problem.overflows(setup.goal, guided, setup.start)
        || (tree.in_order(setup, pos) && expansions < tree.examined@.len())
}

/// Dropping queue entries keeps a search in order.
proof fn lemma_still_orderly<W: WorldView + ?Sized, G: Goal + ?Sized, M: Move>(
    setup: &Setup<'_, W, G, M>,
    before: &Tree,
    after: &Tree,
    best: (BlockPos, Cost),
    expansions: usize,
)
    requires
        orderly(setup, before, best, expansions),
        after.nodes@ == before.nodes@,
        after.examined == before.examined,
        after.level == before.level,
        forall|entry: OpenEntry| #[trigger]
            after.open@.count(entry) <= before.open@.count(entry),
    ensures
        orderly(setup, after, best, expansions),
{
    reveal(orderly);
    assert forall|entry: OpenEntry| #[trigger]
        after.open@.contains(entry) implies before.open@.contains(entry) by {
        assert(after.open@.count(entry) <= before.open@.count(entry));
    }
    assert forall|pos: BlockPos|
        !tree::pending(before.nodes@, before.open@, pos) implies !#[trigger] tree::pending(
        after.nodes@,
        after.open@,
        pos,
    ) by {
        if tree::pending(after.nodes@, after.open@, pos) {
            let e = choose|e: OpenEntry| #[trigger]
                after.open@.contains(e) && e.pos == pos && e.g == after.nodes@[pos].g;
            assert(before.open@.contains(e));
        }
    }
    if before.ordered(setup) {
        assert forall|entry: OpenEntry| #[trigger] after.open@.count(entry) <= 1 by {
            assert(before.open@.count(entry) <= 1);
        }
    }
}

/// Examining the front of the queue keeps a search in order.
proof fn lemma_examined_in_order<W: WorldView + ?Sized, G: Goal + ?Sized, M: Move>(
    setup: &Setup<'_, W, G, M>,
    before: &Tree,
    after: &Tree,
    best: (BlockPos, Cost),
    chosen: (BlockPos, Cost),
    expansions: usize,
    entry: OpenEntry,
)
    requires
        orderly(setup, before, best, expansions),
        before.sound(setup),
        tree::complete(
            setup.problem(),
            before.nodes@,
            before.open@,
            |pos: BlockPos| setup.finishes(pos),
        ),
        before.open@.contains(entry),
        forall|x: OpenEntry| #[trigger]
            before.open@.contains(x) ==> frontier::entry_le(entry, x),
        entry.g == before.nodes@[entry.pos].g,
        after.nodes@ == before.nodes@,
        after.examined@ == before.examined@.insert(entry.pos),
        after.level@ == entry.f,
        after.open@ == before.open@.remove(entry),
        chosen == best || chosen == (entry.pos, entry.g),
    ensures
        orderly(setup, after, chosen, expansions),
        taken_in_order(setup, after, entry.pos, expansions),
{
    reveal(orderly);
    reveal(taken_in_order);
    let problem = setup.problem();
    let goal = setup.goal;
    let guided = setup.use_heuristic;
    if problem.consistent(goal, guided) {
        let finishes = |pos: BlockPos| setup.finishes(pos);
        let estimate = |pos: BlockPos| setup.estimate(pos);
        assert(finishes =~= |pos: BlockPos| problem.finishes(goal, pos));
        assert(estimate =~= |pos: BlockPos| problem.estimate(goal, guided, pos));
        tree::lemma_front_is_cheapest(
            problem,
            setup.start,
            before.nodes@,
            before.stamps@,
            before.open@,
            goal,
            guided,
            entry,
        );
        assert(entry.f == arith::clamp_u32(entry.g + estimate(entry.pos)));
        if !problem.overflows(goal, guided, setup.start) {
            tree::lemma_take(before.nodes@, before.open@, estimate, entry);
            tree::lemma_taken_once(before.nodes@, before.open@, entry);
            assert forall|x: OpenEntry| #[trigger]
                after.open@.contains(x) implies before.open@.contains(x) by {
                broadcast use vstd::multiset::group_multiset_axioms;

            }
        }
    }
}

/// Expanding a node in order keeps a search in order.
proof fn lemma_expanded_in_order<W: WorldView + ?Sized, G: Goal + ?Sized, M: Move>(
    setup: &Setup<'_, W, G, M>,
    before: &Tree,
    after: &Tree,
    best: (BlockPos, Cost),
    expansions: usize,
    pos: BlockPos,
)
    requires
        orderly(setup, before, best, expansions),
        taken_in_order(setup, before, pos, expansions),
        expansions < usize::MAX,
        before.in_order(setup, pos) ==> after.ordered(setup) && tree::unmoved(
            before.examined@,
            before.nodes@,
            after.nodes@,
        ),
        after.examined == before.examined,
        tree::rooted(before.nodes@, setup.start),
        tree::rooted(after.nodes@, setup.start),
    ensures
        orderly(setup, after, best, (expansions + 1) as usize),
{
    reveal(orderly);
    reveal(taken_in_order);
}

/// A node examined after the last expansion shows that there are more positions
/// than expansions.
proof fn lemma_crowded<W: WorldView + ?Sized, G: Goal + ?Sized, M: Move>(
    setup: &Setup<'_, W, G, M>,
    tree: &Tree,
    pos: BlockPos,
    expansions: usize,
)
    requires
        tree.sound(setup),
        taken_in_order(setup, tree, pos, expansions),
        setup.problem().consistent(setup.goal, setup.use_heuristic),
        !setup.problem().overflows(setup.goal, setup.use_heuristic, setup.start),
    ensures
        !setup.problem().confined(setup.start, expansions as nat),
{
    reveal(taken_in_order);
    let problem = setup.problem();
    if problem.confined(setup.start, expansions as nat) {
        let places = choose|places: Set<BlockPos>| #[trigger]
            problem.encloses(setup.start, places) && places.finite() && places.len() <= expansions;
        assert forall|at: BlockPos| tree.examined@.contains(at) implies places.contains(at) by {
            let hops = tree::lemma_reached(
                problem,
                setup.start,
                tree.nodes@,
                tree.stamps@,
                at,
            );
        }
        vstd::set_lib::lemma_len_subset(tree.examined@, places);
    }
}

impl<'a, W: WorldView + ?Sized, G: Goal + ?Sized, M: Move> SearchSession<'a, W, G, M> {
    /// The graph being searched.
    pub closed spec fn problem(&self) -> Problem<M> {
        self.setup.problem()
    }

    pub closed spec fn destination(&self) -> &G {
        self.setup.goal
    }

    pub closed spec fn origin(&self) -> BlockPos {
        self.setup.start
    }

    /// Whether the frontier is ordered by the goal's lower bound.
    pub closed spec fn guided(&self) -> bool {
        self.setup.use_heuristic
    }

    pub closed spec fn frozen(&self) -> SearchAssumptions {
        self.assumptions
    }

    pub closed spec fn frozen_goal_revision(&self) -> u64 {
        self.goal_revision
    }

    /// Nodes expanded so far.
    pub closed spec fn work(&self) -> nat {
        self.expansions as nat
    }

    /// Nanoseconds spent inside positive slices so far.
    pub closed spec fn time_spent(&self) -> u128 {
        self.elapsed_compute
    }

    /// What the search has recorded about each reached position.
    pub closed spec fn reached(&self) -> Map<BlockPos, NodeData> {
        self.tree.nodes@
    }

    /// Whether a reached position waits to be examined at its current cost.
    pub closed spec fn waiting(&self, pos: BlockPos) -> bool {
        tree::pending(self.tree.nodes@, self.tree.open@, pos)
    }

    /// The entries queued so far, outdated ones among them.
    pub closed spec fn queued(&self) -> Multiset<OpenEntry> {
        self.tree.open@
    }

    /// The positions examined so far, each with the costs it had then.
    pub closed spec fn visits(&self) -> Set<(BlockPos, Cost)> {
        self.tree.visits@
    }

    pub closed spec fn best_position(&self) -> BlockPos {
        self.best.0
    }

    /// What the best position cost when it was examined.
    pub closed spec fn best_cost(&self) -> Cost {
        self.best.1
    }

    /// Whether the session knows and waits on what the course of the search says
    /// after as many expansions, none of them of a position that finishes.
    pub open spec fn on_course(&self) -> bool {
        let now = course::course_after(
            self.problem(),
            self.destination(),
            self.guided(),
            self.origin(),
            self.work(),
        );
        &&& self.reached() == now.nodes
        &&& forall|pos: BlockPos| #[trigger] self.waiting(pos) == now.waiting.contains(pos)
        &&& course::passes(
            self.problem(),
            self.destination(),
            self.guided(),
            self.origin(),
            self.work(),
        )
        &&& self.best_is_after(self.work())
    }

    /// Whether the best partial result is that of the first `n` positions.
    pub open spec fn best_is_after(&self, n: nat) -> bool {
        (self.best_position(), self.best_cost()) == course::best_after(
            self.problem(),
            self.destination(),
            self.guided(),
            self.origin(),
            n,
        )
    }

    /// The answer given so far.
    pub closed spec fn verdict(&self) -> Verdict {
        match self.terminal {
            None => Verdict::Open,
            Some(TerminalStatus::Found(path)) => Verdict::Found {
                nodes: path.nodes@,
                cost: path.total_cost,
            },
            Some(TerminalStatus::Exhausted) => Verdict::Exhausted,
            Some(TerminalStatus::BudgetExhausted) => Verdict::BudgetExhausted,
        }
    }

    /// The invariant of a session.
    pub closed spec fn wf(&self) -> bool {
        &&& self.tree.sound(&self.setup)
        &&& self.setup.use_heuristic == self.problem().guided(self.setup.goal, self.setup.start)
        &&& self.expansions <= self.setup.ctx.max_expansions
        &&& self.hard_time_budget == self.setup.ctx.time_budget_ms * 1_000_000
        &&& (self.setup.goal.settled_revision() matches Some(settled) ==> self.goal_revision
            == settled)
        &&& self.best_wf()
        &&& orderly(&self.setup, &self.tree, self.best, self.expansions)
        &&& self.expansions <= self.tree.visits@.len()
        &&& self.best_is_after(self.expansions as nat) || (self.verdict() is BudgetExhausted
            && self.best_is_after(self.expansions as nat + 1))
        &&& match self.terminal {
            None => {
                &&& self.frontier_complete()
                &&& followed(&self.setup, &self.tree, self.expansions)
            },
            Some(TerminalStatus::Found(path)) => {
                &&& answers(
                    self.problem(),
                    self.setup.goal,
                    self.setup.use_heuristic,
                    self.setup.start,
                    path.nodes@,
                    path.total_cost,
                )
                &&& records(
                    self.tree.nodes@,
                    self.setup.start,
                    path.nodes@,
                    path.total_cost,
                )
            },
            Some(TerminalStatus::Exhausted) => {
                &&& unreachable_goal(self.problem(), self.setup.goal, self.setup.start)
                &&& self.tree.open@.len() == 0
                &&& self.frontier_complete()
            },
            Some(TerminalStatus::BudgetExhausted) => true,
        }
    }

    spec fn frontier_complete(&self) -> bool {
        tree::complete(
            self.problem(),
            self.tree.nodes@,
            self.tree.open@,
            |pos: BlockPos| self.setup.finishes(pos),
        )
    }

    spec fn best_rank(&self) -> (int, int, int) {
        (self.best_lava_risk as int, self.best_water_risk as int, self.best_progress as int)
    }

    spec fn best_wf(&self) -> bool {
        &&& self.tree.nodes@.contains_key(self.best.0)
        &&& self.tree.nodes@[self.best.0].g <= self.best.1
        &&& self.best_rank() == standing(self.problem(), self.setup.goal, self.best.0)
        &&& self.best == (self.setup.start, 0u32) || outranks(
            self.best_rank(),
            standing(self.problem(), self.setup.goal, self.setup.start),
        )
        &&& !(self.verdict() is Found) ==> forall|pos: BlockPos| #[trigger]
            self.tree.nodes@.contains_key(pos) ==> self.waiting(pos) || !outranks(
                standing(self.problem(), self.setup.goal, pos),
                self.best_rank(),
            )
    }

    /// What every step of a search leaves alone.
    spec fn same_search(&self, other: &Self) -> bool {
        &&& self.setup == other.setup
        &&& self.goal_revision == other.goal_revision
        &&& self.assumptions == other.assumptions
        &&& self.hard_time_budget == other.hard_time_budget
    }

    pub fn new(
        world: &'a W,
        start: BlockPos,
        goal: &'a G,
        moves: &'a [M],
        ctx: &'a MoveContext,
    ) -> (session: Self)
        ensures
            session.wf(),
            session.problem() == (Problem {
                terrain: world.terrain(),
                ctx: *ctx,
                moves: moves@,
                model: None,
            }),
            session.destination() == goal,
            session.origin() == start,
            session.guided() == session.problem().guided(goal, start),
            session.frozen() == (SearchAssumptions { world_revision: 0, cost_revision: 0 }),
            session.verdict() is Open,
            session.work() == 0,
            session.time_spent() == 0,
            session.best_position() == start,
            session.best_cost() == 0,
            session.reached().dom() == set![start],
            session.visits() == Set::<(BlockPos, Cost)>::empty(),
            session.queued() == Multiset::<OpenEntry>::empty().insert(
                tree::ranked(session.problem(), goal, session.guided(), start, 0),
            ),
    {
        Self::new_with_assumptions_and_cost_model(
            world,
            start,
            goal,
            moves,
            ctx,
            SearchAssumptions::default(),
            None,
        )
    }

    pub fn new_with_cost_model(
        world: &'a W,
        start: BlockPos,
        goal: &'a G,
        moves: &'a [M],
        ctx: &'a MoveContext,
        cost_model: &'a CostModelSnapshot,
    ) -> (session: Self)
        ensures
            session.wf(),
            session.problem() == (Problem {
                terrain: world.terrain(),
                ctx: *ctx,
                moves: moves@,
                model: Some(*cost_model),
            }),
            session.destination() == goal,
            session.origin() == start,
            session.guided() == session.problem().guided(goal, start),
            session.frozen() == (SearchAssumptions {
                world_revision: 0,
                cost_revision: cost_model.model_revision,
            }),
            session.verdict() is Open,
            session.work() == 0,
            session.time_spent() == 0,
            session.best_position() == start,
            session.best_cost() == 0,
            session.reached().dom() == set![start],
            session.visits() == Set::<(BlockPos, Cost)>::empty(),
            session.queued() == Multiset::<OpenEntry>::empty().insert(
                tree::ranked(session.problem(), goal, session.guided(), start, 0),
            ),
    {
        Self::new_with_assumptions_and_cost_model(
            world,
            start,
            goal,
            moves,
            ctx,
            SearchAssumptions { world_revision: 0, cost_revision: cost_model.model_revision },
            Some(cost_model),
        )
    }

    pub fn new_with_assumptions(
        world: &'a W,
        start: BlockPos,
        goal: &'a G,
        moves: &'a [M],
        ctx: &'a MoveContext,
        assumptions: SearchAssumptions,
    ) -> (session: Self)
        ensures
            session.wf(),
            session.problem() == (Problem {
                terrain: world.terrain(),
                ctx: *ctx,
                moves: moves@,
                model: None,
            }),
            session.destination() == goal,
            session.origin() == start,
            session.guided() == session.problem().guided(goal, start),
            session.frozen() == assumptions,
            session.verdict() is Open,
            session.work() == 0,
            session.time_spent() == 0,
            session.best_position() == start,
            session.best_cost() == 0,
            session.reached().dom() == set![start],
            session.visits() == Set::<(BlockPos, Cost)>::empty(),
            session.queued() == Multiset::<OpenEntry>::empty().insert(
                tree::ranked(session.problem(), goal, session.guided(), start, 0),
            ),
    {
        Self::new_with_assumptions_and_cost_model(world, start, goal, moves, ctx, assumptions, None)
    }

    pub fn new_with_assumptions_and_cost_model(
        world: &'a W,
        start: BlockPos,
        goal: &'a G,
        moves: &'a [M],
        ctx: &'a MoveContext,
        assumptions: SearchAssumptions,
        cost_model: Option<&'a CostModelSnapshot>,
    ) -> (session: Self)
        ensures
            session.wf(),
            session.problem() == (Problem {
                terrain: world.terrain(),
                ctx: *ctx,
                moves: moves@,
                model: match cost_model {
                    Some(model) => Some(*model),
                    None => None,
                },
            }),
            session.destination() == goal,
            session.origin() == start,
            session.guided() == session.problem().guided(goal, start),
            session.frozen() == assumptions,
            session.verdict() is Open,
            session.work() == 0,
            session.time_spent() == 0,
            session.best_position() == start,
            session.best_cost() == 0,
            session.reached().dom() == set![start],
            session.visits() == Set::<(BlockPos, Cost)>::empty(),
            session.queued() == Multiset::<OpenEntry>::empty().insert(
                tree::ranked(session.problem(), goal, session.guided(), start, 0),
            ),
    {
        let model_routes: bool = match cost_model {
            Some(model) => model.affects_routing(),
            None => false,
        };
        let mut all_respect: bool = true;
        let mut i: usize = 0;
        while i < moves.len()
            invariant
                i <= moves@.len(),
                all_respect == forall|k: int|
                    0 <= k < i ==> (#[trigger] moves@[k]).respects_bound(),
            decreases moves@.len() - i,
        {
            let respects = moves[i].supports_builtin_heuristic();
            all_respect = all_respect && respects;
            i += 1;
        }
        let use_heuristic: bool = !model_routes && all_respect && goal.heuristic_lower_bound(
            start,
            ctx,
        ).is_some();
        let setup = Setup { world, moves, ctx, cost_model, goal, start, use_heuristic };
        assert(use_heuristic == setup.problem().guided(goal, start)) by {
            let problem = setup.problem();
            assert(problem.moves == moves@);
            assert(all_respect == forall|k: int|
                0 <= k < problem.moves.len() ==> (#[trigger] problem.moves[k]).respects_bound());
        }
        let mut tree = Tree::plant(&setup);
        let ghost planted = tree;
        assert(orderly(&setup, &planted, (start, 0), 0)) by {
            reveal(orderly);
        }
        let best_lava_risk: Cost = tree.danger_at(&setup, start);
        let best_water_risk: u8 = water_risk(start, world, ctx);
        let best_progress: u64 = goal.progress_key(start);
        let session = SearchSession {
            setup,
            goal_revision: goal.revision(),
            assumptions,
            tree,
            best_lava_risk,
            best_water_risk,
            best_progress,
            best: (start, 0),
            expansions: 0,
            hard_time_budget: ctx.time_budget_ms as u128 * 1_000_000,
            elapsed_compute: 0,
            terminal: None,
        };
        proof {
            lemma_still_orderly(&setup, &planted, &session.tree, session.best, 0);
            lemma_outset(&setup, &session.tree);
            assert(session.tree.nodes@.contains_key(start));
            assert forall|pos: BlockPos| #[trigger]
                session.tree.nodes@.contains_key(pos) implies session.waiting(pos) by {
                assert(set![start].contains(pos));
            }
        }
        session
    }

    pub fn assumptions(&self) -> (assumptions: SearchAssumptions)
        ensures
            assumptions == self.frozen(),
    {
        self.assumptions
    }

    pub fn expansions(&self) -> (n: usize)
        ensures
            n == self.work(),
    {
        self.expansions
    }

    /// Wall-clock nanoseconds spent inside positive [`SearchSession::advance`]
    /// calls.
    ///
    /// Time between slices is deliberately excluded, so a cooperatively
    /// scheduled session does not expire merely because it yielded.
    pub fn elapsed_compute(&self) -> (nanos: u128)
        ensures
            nanos == self.time_spent(),
    {
        self.elapsed_compute
    }

    pub fn is_terminal(&self) -> (r: bool)
        ensures
            r == !(self.verdict() is Open),
    {
        self.terminal.is_some()
    }

    /// Best safe progress known so far. This is always at least `[start]`.
    pub fn best_path(&self) -> (path: Path)
        requires
            self.wf(),
        ensures
            partial_walk(self.problem(), self.origin(), path.nodes@, path.total_cost),
            tree::traces(self.reached(), self.origin(), self.best_position(), path.nodes@),
            path.total_cost == self.best_cost(),
            course::best_so_far(
                self.problem(),
                self.destination(),
                self.guided(),
                self.origin(),
                self.best_position(),
                self.best_cost(),
            ),
            self.reached().contains_key(self.best_position()),
            progresses(
                self.problem(),
                self.destination(),
                self.origin(),
                path.nodes@,
                path.total_cost,
            ),
            direct(
                self.problem(),
                self.destination(),
                self.guided(),
                self.origin(),
                path.nodes@,
                path.total_cost,
            ),
            self.problem().consistent(self.destination(), self.guided())
                ==> self.problem().overflows(self.destination(), self.guided(), self.origin())
                || self.reached()[self.best_position()].g == path.total_cost,
            path.nodes@.len() == 1 ==> self.reached()[self.origin()].g == path.total_cost,
            !(self.verdict() is Found) ==> forall|pos: BlockPos| #[trigger]
                self.reached().contains_key(pos) ==> self.waiting(pos) || !outranks(
                    standing(self.problem(), self.destination(), pos),
                    standing(self.problem(), self.destination(), self.best_position()),
                ),
    {
        let path = self.tree.reconstruct(&self.setup, self.best.0, self.best.1);
        proof {
            let hops = tree::lemma_trace_is_walk(
                self.problem(),
                self.setup.start,
                self.tree.nodes@,
                self.tree.stamps@,
                self.best.0,
                path.nodes@,
            );
            assert(tree::realizes(self.problem(), self.origin(), path.nodes@, hops));
            if path.nodes@.len() > 1 {
                assert(tree::trace_step(self.tree.nodes@, path.nodes@, path.nodes@.len() - 1));
            }
            self.lemma_best_is_direct(path, hops);
        }
        path
    }

    /// The best position is reached as cheaply as can be.
    proof fn lemma_best_is_direct(&self, path: Path, hops: Seq<Hop>)
        requires
            self.wf(),
            tree::realizes(self.problem(), self.setup.start, path.nodes@, hops),
            self.problem().walkable(self.setup.start, hops),
            self.problem().end(self.setup.start, hops) == self.best.0,
            arith::clamp_u32(self.problem().length(self.setup.start, hops)) <= self.best.1,
            path.nodes@.last().pos == self.best.0,
            path.total_cost == self.best.1,
        ensures
            direct(
                self.problem(),
                self.setup.goal,
                self.setup.use_heuristic,
                self.setup.start,
                path.nodes@,
                path.total_cost,
            ),
            self.problem().consistent(self.setup.goal, self.setup.use_heuristic)
                ==> self.problem().overflows(
                self.setup.goal,
                self.setup.use_heuristic,
                self.setup.start,
            ) || self.tree.nodes@[self.best.0].g == self.best.1,
    {
        let problem = self.problem();
        let start = self.setup.start;
        if self.best.0 == start {
            assert forall|way: Seq<Hop>|
                problem.walkable(start, way) && #[trigger] problem.end(start, way)
                    == start implies 0 <= problem.length(start, way) by {
                problem.lemma_length_nonneg(start, way);
            }
        }
        assert(problem.end(start, hops) == self.best.0);
        reveal(orderly);
    }

    /// Joins a path found by this session with the metadata its generators
    /// authored. Missing metadata is reported rather than inferred.
    pub fn motion_plan_for(&self, path: Path) -> (made: Result<MotionPlan, MotionPlanError>)
        ensures
            match made {
                Ok(plan) => {
                    &&& plan_fault(self.reached(), path.nodes@, path.total_cost) is None
                    &&& plan.route() == path
                    &&& plan.motion() == recorded_steps(self.reached(), path.nodes@)
                },
                Err(error) => plan_fault(self.reached(), path.nodes@, path.total_cost) == Some(
                    error,
                ),
            },
    {
        let ghost nodes = self.reached();
        if path.nodes.len() == 0 {
            return Err(MotionPlanError::MetadataMismatch);
        }
        let first = path.nodes[0];
        match self.tree.nodes.get(first.pos) {
            None => {
                return Err(MotionPlanError::MissingGeneratedMetadata);
            },
            Some(data) => {
                if first.reached_by != MoveKind::Start || data.parent.is_some() || data.reached_by
                    != MoveKind::Start {
                    return Err(MotionPlanError::MetadataMismatch);
                }
            },
        }
        let last = path.nodes[path.nodes.len() - 1];
        match self.tree.nodes.get(last.pos) {
            None => {
                return Err(MotionPlanError::MissingGeneratedMetadata);
            },
            Some(data) => {
                if data.g != path.total_cost {
                    return Err(MotionPlanError::MetadataMismatch);
                }
            },
        }
        let mut steps: Vec<MotionStep> = Vec::new();
        let mut i: usize = 1;
        while i < path.nodes.len()
            invariant
                nodes == self.reached(),
                1 <= i <= path.nodes@.len(),
                steps@.len() == i - 1,
                forall|k: int|
                    0 <= k < steps@.len() ==> #[trigger] steps@[k] == recorded_step(
                        nodes,
                        path.nodes@,
                        k,
                    ),
                forall|k: int|
                    0 <= k < steps@.len() ==> #[trigger] edge_fault(nodes, path.nodes@, k + 1)
                        is None,
                first_edge_fault(nodes, path.nodes@, 1) == first_edge_fault(
                    nodes,
                    path.nodes@,
                    i as int,
                ),
                plan_fault(nodes, path.nodes@, path.total_cost) == first_edge_fault(
                    nodes,
                    path.nodes@,
                    1,
                ),
            decreases path.nodes@.len() - i,
        {
            let before = path.nodes[i - 1];
            let node = path.nodes[i];
            let data: NodeData = match self.tree.nodes.get(node.pos) {
                None => {
                    return Err(MotionPlanError::MissingGeneratedMetadata);
                },
                Some(data) => *data,
            };
            let linked: bool = match data.parent {
                Some(parent) => parent == before.pos,
                None => false,
            };
            if !linked || data.reached_by != node.reached_by {
                return Err(MotionPlanError::MetadataMismatch);
            }
            let metadata = match data.metadata {
                None => {
                    return Err(MotionPlanError::MissingGeneratedMetadata);
                },
                Some(metadata) => metadata,
            };
            let step = MotionStep {
                edge_index: (i - 1) as u32,
                from: before.pos,
                to: node.pos,
                kind: node.reached_by,
                primitive: metadata.primitive,
                features: metadata.features,
                predicted: metadata.predicted,
                predicted_ticks: metadata.predicted_ticks,
            };
            steps.push(step);
            assert(edge_fault(nodes, path.nodes@, i as int) is None);
            i += 1;
        }
        proof {
            assert(steps@ =~= recorded_steps(nodes, path.nodes@));
            assert(planning::steps_match(path.nodes@, steps@)) by {
                assert forall|k: int| 0 <= k < steps@.len() implies planning::step_matches(
                    path.nodes@,
                    #[trigger] steps@[k],
                    k,
                ) by {
                    assert(edge_fault(nodes, path.nodes@, k + 1) is None);
                }
            }
        }
        MotionPlan::from_parts(path, steps)
    }

    /// An exhausted search has the best partial result of everything that can
    /// be reached.
    pub proof fn exhausted_search_keeps_the_best_of_all(&self, hops: Seq<Hop>)
        requires
            self.wf(),
            self.verdict() is Exhausted,
            self.problem().walkable(self.origin(), hops),
        ensures
            self.reached().contains_key(self.problem().end(self.origin(), hops)),
            !outranks(
                standing(
                    self.problem(),
                    self.destination(),
                    self.problem().end(self.origin(), hops),
                ),
                standing(self.problem(), self.destination(), self.best_position()),
            ),
    {
        let finishes = |pos: BlockPos| self.setup.finishes(pos);
        tree::lemma_exhausted(
            self.problem(),
            self.setup.start,
            self.tree.nodes@,
            self.tree.open@,
            finishes,
            hops,
        );
        assert forall|entry: OpenEntry| !self.tree.open@.contains(entry) by {
            vstd::multiset::lemma_multiset_empty_len(self.tree.open@);
        }
    }

    /// An exhausted session keeps the best of all.
    proof fn lemma_exhausted_best(&self)
        requires
            self.wf(),
        ensures
            self.verdict() is Exhausted ==> forall|hops: Seq<Hop>|
                self.problem().walkable(self.origin(), hops) ==> !outranks(
                    standing(
                        self.problem(),
                        self.destination(),
                        #[trigger] self.problem().end(self.origin(), hops),
                    ),
                    standing(self.problem(), self.destination(), self.best_position()),
                ),
    {
        if self.verdict() is Exhausted {
            assert forall|hops: Seq<Hop>|
                self.problem().walkable(self.origin(), hops) implies !outranks(
                standing(
                    self.problem(),
                    self.destination(),
                    #[trigger] self.problem().end(self.origin(), hops),
                ),
                standing(self.problem(), self.destination(), self.best_position()),
            ) by {
                self.exhausted_search_keeps_the_best_of_all(hops);
            }
        }
    }

    /// The answer given so far, as a status.
    fn public_status(&self) -> (status: SearchStatus)
        ensures
            reports(status, self.verdict()),
    {
        match &self.terminal {
            None => SearchStatus::InProgress,
            Some(TerminalStatus::Found(path)) => SearchStatus::Found(path.clone()),
            Some(TerminalStatus::Exhausted) => SearchStatus::Exhausted,
            Some(TerminalStatus::BudgetExhausted) => SearchStatus::BudgetExhausted,
        }
    }

    /// Advances only if caller-maintained world and cost revisions still match.
    pub fn advance_checked(&mut self, slice: SearchSlice, current: SearchAssumptions) -> (status:
        SearchStatus)
        requires
            old(self).wf(),
        ensures
            final(self).wf(),
            advance_law(*old(self), *final(self), slice, status),
            status matches SearchStatus::Invalidated(mismatch) ==> {
                ||| mismatch == (RevisionMismatch {
                    kind: RevisionKind::World,
                    expected: old(self).frozen().world_revision,
                    actual: current.world_revision,
                }) && current.world_revision != old(self).frozen().world_revision
                ||| mismatch == (RevisionMismatch {
                    kind: RevisionKind::Cost,
                    expected: old(self).frozen().cost_revision,
                    actual: current.cost_revision,
                }) && current.world_revision == old(self).frozen().world_revision
                    && current.cost_revision != old(self).frozen().cost_revision
                ||| mismatch.kind == RevisionKind::Goal && mismatch.expected == old(
                    self,
                ).frozen_goal_revision() && mismatch.actual != mismatch.expected && current
                    == old(self).frozen() && old(self).destination().settled_revision() is None
            },
            current != old(self).frozen() ==> status is Invalidated,
    {
        proof {
            if self.terminal is None {
                self.open_sessions_are_on_course();
            }
        }
        if current.world_revision != self.assumptions.world_revision {
            return SearchStatus::Invalidated(
                RevisionMismatch {
                    kind: RevisionKind::World,
                    expected: self.assumptions.world_revision,
                    actual: current.world_revision,
                },
            );
        }
        if current.cost_revision != self.assumptions.cost_revision {
            return SearchStatus::Invalidated(
                RevisionMismatch {
                    kind: RevisionKind::Cost,
                    expected: self.assumptions.cost_revision,
                    actual: current.cost_revision,
                },
            );
        }
        self.advance(slice)
    }

    /// Performs at most `slice.max_expansions` units of search work.
    ///
    /// A zero-expansion slice is strictly observational: it does not pop stale
    /// entries, inspect mutable goal state, start timers or change terminal
    /// state.
    pub fn advance(&mut self, slice: SearchSlice) -> (status: SearchStatus)
        requires
            old(self).wf(),
        ensures
            final(self).wf(),
            advance_law(*old(self), *final(self), slice, status),
            exists|log: Seq<u128>| #[trigger]
                pace_law(*old(self), *final(self), slice, status, Seq::empty(), log),
            status matches SearchStatus::Invalidated(mismatch) ==> {
                &&& mismatch.kind == RevisionKind::Goal
                &&& mismatch.expected == old(self).frozen_goal_revision()
                &&& mismatch.actual != mismatch.expected
                &&& slice.max_expansions > 0
                &&& old(self).destination().settled_revision() is None
            },
    {
        let mut clock = RunningClock::new();
        self.advance_on(slice, &mut clock)
    }

    /// [`SearchSession::advance`] with its time measured by a given clock.
    pub fn advance_on<C: Clock>(&mut self, slice: SearchSlice, clock: &mut C) -> (status:
        SearchStatus)
        requires
            old(self).wf(),
        ensures
            final(self).wf(),
            final(clock).reading() == old(clock).reading(),
            advance_law(*old(self), *final(self), slice, status),
            old(clock).reading() matches Some(shown) ==> timed_law(
                *old(self),
                *final(self),
                slice,
                status,
                shown,
            ),
            pace_law(
                *old(self),
                *final(self),
                slice,
                status,
                old(clock).log(),
                final(clock).log(),
            ),
            status matches SearchStatus::Invalidated(mismatch) ==> {
                &&& mismatch.kind == RevisionKind::Goal
                &&& mismatch.expected == old(self).frozen_goal_revision()
                &&& mismatch.actual != mismatch.expected
                &&& slice.max_expansions > 0
                &&& old(self).destination().settled_revision() is None
            },
    {
        proof {
            if self.terminal is None {
                self.open_sessions_are_on_course();
            }
        }
        if slice.max_expansions == 0 {
            return self.public_status();
        }
        let current_goal_revision: u64 = self.setup.goal.revision();
        if current_goal_revision != self.goal_revision {
            return SearchStatus::Invalidated(
                RevisionMismatch {
                    kind: RevisionKind::Goal,
                    expected: self.goal_revision,
                    actual: current_goal_revision,
                },
            );
        }
        if self.terminal.is_some() {
            return self.public_status();
        }
        clock.start();
        let mut done: usize = 0;
        let ghost entry = *self;
        let ghost left = time_left(entry);
        let ghost base = entry.work();
        let ghost mut checks: Seq<Check> = Seq::empty();
        assert(pace::shown(checks) =~= Seq::<u128>::empty());
        assert(clock.log() =~= old(clock).log() + pace::shown(checks));
        loop
            invariant
                self.wf(),
                self.verdict() is Open,
                entry == *old(self),
                entry.verdict() is Open,
                left == time_left(entry),
                base == entry.work(),
                same_search(entry, *self),
                clock.reading() == old(clock).reading(),
                slice.max_expansions > 0,
                done <= slice.max_expansions,
                self.work() == base + done,
                self.work() <= self.problem().ctx.max_expansions,
                self.time_spent() == entry.time_spent(),
                tree::refines(entry.reached(), self.reached()),
                entry.visits().subset_of(self.visits()),
                self.work() == base ==> self.reached() == entry.reached(),
                checks.len() == 0 ==> *self == entry,
                pace::keeps_pace(checks, left, base, slice),
                self.work() == pace::work_since(checks, base),
                clock.log() == old(clock).log() + pace::shown(checks),
                steady(old(clock).reading(), old(clock).log(), clock.log()),
            decreases
                    self.problem().ctx.max_expansions - self.work(),
                    self.queued().len(),
        {
            let ghost prior = *self;
            let ghost before = clock.log();
            let spent: u128 = clock.nanos();
            let ghost log = clock.log();
            assert(log == before.push(spent));
            match self.turn_on(slice, done, spent, clock) {
                Turn::Over(status) => {
                    proof {
                        lemma_over(
                            entry,
                            prior,
                            *self,
                            slice,
                            done as int,
                            spent,
                            checks,
                            old(clock).log(),
                            log,
                            clock.log(),
                            status,
                        );
                        if let Some(shown) = old(clock).reading() {
                            lemma_timed(
                                entry,
                                *self,
                                slice,
                                status,
                                old(clock).log(),
                                clock.log(),
                                shown,
                            );
                        }
                    }
                    return status;
                },
                Turn::Dropped => {
                    proof {
                        let check = Check {
                            occasion: Occasion::Turn,
                            shown: spent,
                            work: prior.work(),
                        };
                        pace::lemma_pace_kept(checks, left, base, slice, check);
                        assert(clock.log() =~= old(clock).log() + pace::shown(
                            checks.push(check),
                        ));
                        checks = checks.push(check);
                    }
                },
                Turn::Expanded => {
                    proof {
                        let check = Check {
                            occasion: Occasion::Turn,
                            shown: spent,
                            work: prior.work(),
                        };
                        let last = Check {
                            occasion: Occasion::Expansion,
                            shown: clock.log().last(),
                            work: prior.work(),
                        };
                        pace::lemma_pace_kept(checks, left, base, slice, check);
                        pace::lemma_pace_kept(checks.push(check), left, base, slice, last);
                        assert(clock.log() =~= old(clock).log() + pace::shown(
                            checks.push(check).push(last),
                        ));
                        checks = checks.push(check).push(last);
                    }
                    done += 1;
                },
            }
        }
    }

    /// One turn of [`SearchSession::advance_on`], with what the clock shows before
    /// it.
    pub fn turn_on<C: Clock>(
        &mut self,
        slice: SearchSlice,
        done: usize,
        spent: u128,
        clock: &mut C,
    ) -> (turn: Turn)
        requires
            old(self).wf(),
            old(self).verdict() is Open,
        ensures
            final(self).wf(),
            final(clock).reading() == old(clock).reading(),
            turn_law(
                *old(self),
                *final(self),
                slice,
                done as int,
                spent,
                old(clock).log(),
                final(clock).log(),
                turn,
            ),
            old(clock).reading() matches Some(shown) ==> final(clock).log() == old(clock).log()
                || final(clock).log().last() == shown,
    {
        if self.hard_time_exhausted(spent) {
            self.terminal = Some(TerminalStatus::BudgetExhausted);
            self.finish_advance(spent);
            return Turn::Over(SearchStatus::BudgetExhausted);
        }
        let slice_spent: bool = match slice.time_budget {
            Some(budget) => spent >= budget,
            None => false,
        };
        if done >= slice.max_expansions || slice_spent {
            self.finish_advance(spent);
            return Turn::Over(SearchStatus::InProgress);
        }
        self.act_on(clock)
    }

    /// The part of a turn that comes once there is time for it.
    fn act_on<C: Clock>(&mut self, clock: &mut C) -> (turn: Turn)
        requires
            old(self).wf(),
            old(self).verdict() is Open,
        ensures
            final(self).wf(),
            final(clock).reading() == old(clock).reading(),
            action_law(
                *old(self),
                *final(self),
                old(clock).log(),
                final(clock).log(),
                turn,
            ),
            old(clock).reading() matches Some(shown) ==> final(clock).log() == old(clock).log()
                || final(clock).log().last() == shown,
    {
        match self.take_next() {
            Taken::Nothing => {
                self.finish_advance(clock.nanos());
                Turn::Over(SearchStatus::Exhausted)
            },
            Taken::Stale => Turn::Dropped,
            Taken::Finish(path) => {
                self.finish_advance(clock.nanos());
                Turn::Over(SearchStatus::Found(path))
            },
            Taken::Node(pos, g) => {
                // Goal testing deliberately happens before budget testing. A goal
                // discovered by the final permitted expansion must still be
                // returned.
                let spent: u128 = clock.nanos();
                let hard_spent: bool = self.hard_time_exhausted(spent);
                if !self.enter_node(pos, g, hard_spent) {
                    self.finish_advance(spent);
                    return Turn::Over(SearchStatus::BudgetExhausted);
                }
                Turn::Expanded
            },
        }
    }

    /// Advances a session without a limit on its slices until it ends.
    pub fn run_on<C: Clock>(&mut self, clock: &mut C) -> (status: SearchStatus)
        requires
            old(self).wf(),
        ensures
            final(self).wf(),
            final(clock).reading() == old(clock).reading(),
            pace::extends(old(clock).log(), final(clock).log()),
            run_law(*old(self), *final(self), status),
            old(clock).reading() matches Some(shown) ==> prompt_law(
                *old(self),
                *final(self),
                status,
                shown,
            ),
            old(self).problem().ctx.max_expansions < usize::MAX ==> pace_law(
                *old(self),
                *final(self),
                whole(),
                status,
                old(clock).log(),
                final(clock).log(),
            ),
    {
        let ghost entry = *self;
        loop
            invariant
                self.wf(),
                entry == *old(self),
                clock.reading() == old(clock).reading(),
                same_search(entry, *self),
                pace::extends(old(clock).log(), clock.log()),
                !(entry.verdict() is Open) ==> *self == entry,
                self.work() <= self.problem().ctx.max_expansions,
                entry.time_spent() <= self.time_spent(),
                time_left(entry) <= 0 ==> *self == entry,
                clock.reading() matches Some(shown) ==> shown >= time_left(entry) ==> *self
                    == entry,
                clock.reading() == Some(0u128) ==> self.time_spent() == entry.time_spent(),
                entry.problem().ctx.max_expansions < usize::MAX ==> *self == entry && clock.log()
                    == old(clock).log(),
                entry.verdict() is Open ==> self.verdict() is Open,
            decreases self.problem().ctx.max_expansions - self.work(),
        {
            let ghost before = *self;
            let status = self.advance_on(SearchSlice::unlimited(), clock);
            if !matches!(status, SearchStatus::InProgress) {
                return status;
            }
            assert(before.verdict() is Open);
        }
    }

    /// The state between taking a node and expanding it.
    spec fn holds(&self, pos: BlockPos, g: Cost) -> bool {
        &&& self.tree.sound(&self.setup)
        &&& self.setup.use_heuristic == self.problem().guided(self.setup.goal, self.setup.start)
        &&& self.expansions <= self.setup.ctx.max_expansions
        &&& self.hard_time_budget == self.setup.ctx.time_budget_ms * 1_000_000
        &&& (self.setup.goal.settled_revision() matches Some(settled) ==> self.goal_revision
            == settled)
        &&& self.best_wf()
        &&& orderly(&self.setup, &self.tree, self.best, self.expansions)
        &&& self.terminal is None
        &&& self.tree.nodes@.contains_key(pos)
        &&& self.tree.nodes@[pos].g == g
        &&& tree::expanding(
            self.problem(),
            self.tree.nodes@,
            self.tree.open@,
            |p: BlockPos| self.setup.finishes(p),
            pos,
            0,
            0,
        )
        &&& taken_in_order(&self.setup, &self.tree, pos, self.expansions)
        &&& self.expansions < self.tree.visits@.len()
        &&& followed_to(&self.setup, &self.tree, self.expansions, pos)
        &&& self.best_is_after(self.expansions as nat + 1)
    }

    /// Takes the front of the frontier, tests it against the goal, and weighs
    /// it as a partial result.
    fn take_next(&mut self) -> (taken: Taken)
        requires
            old(self).wf(),
            old(self).terminal is None,
        ensures
            final(self).same_search(old(self)),
            final(self).expansions == old(self).expansions,
            final(self).elapsed_compute == old(self).elapsed_compute,
            final(self).tree.nodes@ == old(self).tree.nodes@,
            !(taken is Node) ==> final(self).tree.visits == old(self).tree.visits,
            match taken {
                Taken::Nothing => final(self).wf() && final(self).verdict() is Exhausted,
                Taken::Stale => {
                    &&& final(self).wf()
                    &&& final(self).terminal is None
                    &&& final(self).tree.open@.len() < old(self).tree.open@.len()
                },
                Taken::Finish(path) => {
                    &&& final(self).wf()
                    &&& final(self).verdict() == (Verdict::Found {
                        nodes: path.nodes@,
                        cost: path.total_cost,
                    })
                    &&& answers(
                        old(self).problem(),
                        old(self).setup.goal,
                        old(self).setup.use_heuristic,
                        old(self).setup.start,
                        path.nodes@,
                        path.total_cost,
                    )
                    &&& records(
                        old(self).tree.nodes@,
                        old(self).setup.start,
                        path.nodes@,
                        path.total_cost,
                    )
                },
                Taken::Node(pos, g) => {
                    &&& final(self).holds(pos, g)
                    &&& final(self).tree.visits@ == old(self).tree.visits@.insert((pos, g))
                },
            },
    {
        let ghost before = *self;
        let entry: OpenEntry = match self.tree.open.pop() {
            None => {
                self.terminal = Some(TerminalStatus::Exhausted);
                proof {
                    before.lemma_exhausted();
                    lemma_still_orderly(
                    &self.setup,
                    &before.tree,
                    &self.tree,
                    self.best,
                    self.expansions,
                );
                }
                return Taken::Nothing;
            },
            Some(entry) => entry,
        };
        proof {
            before.lemma_take(entry);
            lemma_still_orderly(
                    &self.setup,
                    &before.tree,
                    &self.tree,
                    self.best,
                    self.expansions,
                );
        }
        let node: NodeData = match self.tree.nodes.get(entry.pos) {
            None => {
                return Taken::Stale;
            },
            Some(node) => *node,
        };
        // Reopening inserts a new entry rather than mutating the heap.
        if entry.g != node.g {
            proof {
                lemma_dropped_on_course(
                    &self.setup,
                    &before.tree,
                    &self.tree,
                    self.expansions,
                    entry,
                );
            }
            return Taken::Stale;
        }
        self.examine(entry, Ghost(before))
    }

    /// Whether taking `entry` off the frontier is all that was done to `before`.
    spec fn popped(&self, before: &Self, entry: OpenEntry) -> bool {
        &&& *self == (SearchSession {
            tree: Tree { open: self.tree.open, ..before.tree },
            ..*before
        })
        &&& self.tree.open@ == before.tree.open@.remove(entry)
    }

    /// Tests a current node against the goal, and weighs it as a partial
    /// result.
    fn examine(&mut self, entry: OpenEntry, Ghost(before): Ghost<Self>) -> (taken: Taken)
        requires
            before.wf(),
            before.terminal is None,
            before.tree.open@.contains(entry),
            forall|x: OpenEntry| #[trigger]
                before.tree.open@.contains(x) ==> frontier::entry_le(entry, x),
            before.tree.nodes@.contains_key(entry.pos),
            entry.g == before.tree.nodes@[entry.pos].g,
            old(self).popped(&before, entry),
            old(self).tree.sound(&before.setup),
        ensures
            final(self).same_search(&before),
            final(self).expansions == before.expansions,
            final(self).elapsed_compute == before.elapsed_compute,
            final(self).tree.nodes@ == before.tree.nodes@,
            taken is Finish ==> final(self).tree.visits == before.tree.visits,
            match taken {
                Taken::Finish(path) => {
                    &&& final(self).wf()
                    &&& final(self).verdict() == (Verdict::Found {
                        nodes: path.nodes@,
                        cost: path.total_cost,
                    })
                    &&& answers(
                        before.problem(),
                        before.setup.goal,
                        before.setup.use_heuristic,
                        before.setup.start,
                        path.nodes@,
                        path.total_cost,
                    )
                    &&& records(
                        before.tree.nodes@,
                        before.setup.start,
                        path.nodes@,
                        path.total_cost,
                    )
                },
                Taken::Node(pos, g) => {
                    &&& final(self).holds(pos, g)
                    &&& final(self).tree.visits@ == before.tree.visits@.insert((pos, g))
                },
                _ => false,
            },
    {
        let pos = entry.pos;
        let lava: Cost = self.tree.danger_at(&self.setup, pos);
        let water: u8 = water_risk(pos, self.setup.world, self.setup.ctx);
        if self.setup.goal.is_satisfied(pos) && lava == 0 && water == 0 {
            let path = self.tree.reconstruct(&self.setup, pos, entry.g);
            proof {
                before.lemma_answer(entry, path);
            }
            let answer = path.clone();
            self.terminal = Some(TerminalStatus::Found(path));
            proof {
                before.lemma_finished(self, entry, path);
            }
            return Taken::Finish(answer);
        }
        proof {
            self.tree.examined@ = self.tree.examined@.insert(pos);
            self.tree.level@ = entry.f;
            self.tree.visits@ = self.tree.visits@.insert((pos, entry.g));
        }
        let progress: u64 = self.setup.goal.progress_key(pos);
        if lava < self.best_lava_risk || (lava == self.best_lava_risk && (water
            < self.best_water_risk || (water == self.best_water_risk && progress
            < self.best_progress))) {
            self.best_lava_risk = lava;
            self.best_water_risk = water;
            self.best_progress = progress;
            self.best = (pos, entry.g);
        }
        proof {
            before.lemma_examined(self, entry);
        }
        Taken::Node(pos, entry.g)
    }

    /// Whether everything that examining a node leaves alone is as in `before`.
    spec fn keeps(&self, before: &Self) -> bool {
        &&& self.same_search(before)
        &&& self.expansions == before.expansions
        &&& self.tree.nodes@ == before.tree.nodes@
        &&& self.tree.stamps == before.tree.stamps
        &&& self.tree.trails == before.tree.trails
        &&& self.tree.now == before.tree.now
        &&& tree::caches_true(
            before.problem(),
            self.tree.lava_risks@,
            self.tree.terrain_costs@,
        )
    }

    /// Finishing at the front of the frontier keeps the invariant.
    proof fn lemma_finished(&self, after: &Self, entry: OpenEntry, path: Path)
        requires
            self.wf(),
            self.terminal is None,
            self.tree.open@.contains(entry),
            entry.g == self.tree.nodes@[entry.pos].g,
            after.keeps(self),
            after.tree.open@ == self.tree.open@.remove(entry),
            after.tree.examined == self.tree.examined,
            after.tree.level == self.tree.level,
            after.tree.visits == self.tree.visits,
            after.best == self.best,
            after.best_rank() == self.best_rank(),
            after.terminal == Some(TerminalStatus::Found(path)),
            answers(
                self.problem(),
                self.setup.goal,
                self.setup.use_heuristic,
                self.setup.start,
                path.nodes@,
                path.total_cost,
            ),
            records(self.tree.nodes@, self.setup.start, path.nodes@, path.total_cost),
        ensures
            after.wf(),
    {
        self.lemma_take(entry);
        lemma_still_orderly(&self.setup, &self.tree, &after.tree, self.best, self.expansions);
    }

    /// Examining the front of the frontier leaves it ready to be expanded.
    proof fn lemma_examined(&self, after: &Self, entry: OpenEntry)
        requires
            self.wf(),
            self.terminal is None,
            self.tree.open@.contains(entry),
            forall|x: OpenEntry| #[trigger]
                self.tree.open@.contains(x) ==> frontier::entry_le(entry, x),
            entry.g == self.tree.nodes@[entry.pos].g,
            !self.setup.finishes(entry.pos),
            after.keeps(self),
            after.tree.open@ == self.tree.open@.remove(entry),
            after.tree.examined@ == self.tree.examined@.insert(entry.pos),
            after.tree.level@ == entry.f,
            after.tree.visits@ == self.tree.visits@.insert((entry.pos, entry.g)),
            after.terminal is None,
            ({
                let rank = standing(self.problem(), self.setup.goal, entry.pos);
                if outranks(rank, self.best_rank()) {
                    after.best_rank() == rank && after.best == (entry.pos, entry.g)
                } else {
                    after.best_rank() == self.best_rank() && after.best == self.best
                }
            }),
        ensures
            after.holds(entry.pos, entry.g),
    {
        self.lemma_take(entry);
        self.lemma_weighed(after, entry.pos);
        lemma_taken_on_course(&self.setup, &self.tree, &after.tree, self.expansions, entry);
        reveal(followed_to);
        tree::lemma_visit(
            self.problem(),
            self.setup.start,
            self.tree.nodes@,
            self.tree.trails@,
            self.tree.open@,
            self.tree.visits@,
            entry,
        );
        lemma_examined_in_order(
            &self.setup,
            &self.tree,
            &after.tree,
            self.best,
            after.best,
            self.expansions,
            entry,
        );
    }

    /// With an empty frontier the goal is out of reach.
    proof fn lemma_exhausted(&self)
        requires
            self.wf(),
            self.terminal is None,
            self.tree.open@.len() == 0,
        ensures
            unreachable_goal(self.problem(), self.setup.goal, self.setup.start),
    {
        let problem = self.problem();
        let finishes = |pos: BlockPos| self.setup.finishes(pos);
        assert forall|hops: Seq<Hop>|
            problem.walkable(self.setup.start, hops) implies !problem.finishes(
            self.setup.goal,
            #[trigger] problem.end(self.setup.start, hops),
        ) by {
            tree::lemma_exhausted(
                problem,
                self.setup.start,
                self.tree.nodes@,
                self.tree.open@,
                finishes,
                hops,
            );
            assert(!finishes(problem.end(self.setup.start, hops)));
        }
    }

    /// What taking an entry leaves behind.
    proof fn lemma_take(&self, entry: OpenEntry)
        requires
            self.wf(),
            self.terminal is None,
            self.tree.open@.contains(entry),
        ensures
            ({
                let nodes = self.tree.nodes@;
                let rest = self.tree.open@.remove(entry);
                let finishes = |pos: BlockPos| self.setup.finishes(pos);
                &&& nodes.contains_key(entry.pos)
                &&& rest.len() == self.tree.open@.len() - 1
                &&& forall|e: OpenEntry| #[trigger]
                    rest.count(e) <= self.tree.open@.count(e)
                &&& tree::queue_sound(nodes, rest, |pos: BlockPos| self.setup.estimate(pos))
                &&& tree::tied_by(rest, self.setup.ctx.path_seed)
                &&& tree::tallied(
                    self.problem(),
                    self.setup.start,
                    nodes,
                    rest,
                    self.tree.visits@,
                )
                &&& forall|pos: BlockPos| #[trigger]
                    nodes.contains_key(pos) && (pos != entry.pos || entry.g != nodes[pos].g)
                        ==> tree::pending(nodes, rest, pos) || !outranks(
                        standing(self.problem(), self.setup.goal, pos),
                        self.best_rank(),
                    )
                &&& entry.g != nodes[entry.pos].g ==> tree::complete(
                    self.problem(),
                    nodes,
                    rest,
                    finishes,
                )
                &&& !self.setup.finishes(entry.pos) ==> tree::expanding(
                    self.problem(),
                    nodes,
                    rest,
                    finishes,
                    entry.pos,
                    0,
                    0,
                )
            }),
    {
        let estimate = |pos: BlockPos| self.setup.estimate(pos);
        let finishes = |pos: BlockPos| self.setup.finishes(pos);
        let nodes = self.tree.nodes@;
        let queue = self.tree.open@;
        tree::lemma_take(nodes, queue, estimate, entry);
        assert forall|e: OpenEntry| #[trigger] queue.remove(entry).count(e) <= queue.count(e) by {
            broadcast use vstd::multiset::group_multiset_axioms;

        }
        assert forall|e: OpenEntry| #[trigger] queue.remove(entry).contains(
            e,
        ) implies queue.contains(e) by {
            assert(queue.remove(entry).count(e) <= queue.count(e));
        }
        tree::lemma_drop_tallied(
            self.problem(),
            self.setup.start,
            nodes,
            queue,
            queue.remove(entry),
            self.tree.visits@,
        );
        if entry.g != nodes[entry.pos].g {
            tree::lemma_drop_stale(self.problem(), nodes, queue, estimate, finishes, entry);
        }
        if !self.setup.finishes(entry.pos) {
            tree::lemma_start_expansion(self.problem(), nodes, queue, estimate, finishes, entry);
        }
        assert forall|pos: BlockPos| #[trigger]
            nodes.contains_key(pos) && (pos != entry.pos || entry.g
                != nodes[pos].g) implies tree::pending(nodes, queue.remove(entry), pos)
            || !outranks(standing(self.problem(), self.setup.goal, pos), self.best_rank()) by {
            assert(self.waiting(pos) == tree::pending(nodes, queue, pos));
        }
    }

    /// A finishing node at the front of the frontier answers the search.
    proof fn lemma_answer(&self, entry: OpenEntry, path: Path)
        requires
            self.wf(),
            self.terminal is None,
            self.tree.open@.contains(entry),
            forall|x: OpenEntry| #[trigger]
                self.tree.open@.contains(x) ==> frontier::entry_le(entry, x),
            entry.g == self.tree.nodes@[entry.pos].g,
            self.setup.finishes(entry.pos),
            tree::traces(self.tree.nodes@, self.setup.start, entry.pos, path.nodes@),
            path.total_cost == entry.g,
        ensures
            answers(
                self.problem(),
                self.setup.goal,
                self.setup.use_heuristic,
                self.setup.start,
                path.nodes@,
                path.total_cost,
            ),
    {
        let problem = self.problem();
        let start = self.setup.start;
        let goal = self.setup.goal;
        let guided = self.setup.use_heuristic;
        let hops = tree::lemma_trace_is_walk(
            problem,
            start,
            self.tree.nodes@,
            self.tree.stamps@,
            entry.pos,
            path.nodes@,
        );
        assert(tree::realizes(problem, start, path.nodes@, hops));
        assert(problem.finishes(goal, problem.end(start, hops)));
        lemma_front_comes_first(&self.setup, &self.tree, self.expansions, entry);
        assert(course::found_after(
            problem,
            goal,
            guided,
            start,
            self.expansions as nat,
            path.nodes@,
            path.total_cost,
        )) by {
            reveal(followed);
        }
        if problem.admissible(goal, guided) {
            let finishes = |pos: BlockPos| self.setup.finishes(pos);
            let estimate = |pos: BlockPos| self.setup.estimate(pos);
            assert(finishes =~= |pos: BlockPos| problem.finishes(goal, pos));
            assert(estimate =~= |pos: BlockPos| problem.estimate(goal, guided, pos));
            tree::lemma_first_finish_is_optimal(
                problem,
                start,
                self.tree.nodes@,
                self.tree.open@,
                goal,
                guided,
                entry,
            );
            assert(entry.g <= problem.length(start, hops));
        }
    }

    /// Whatever is queued is ranked by the estimate of a walk through it, then by
    /// the class of its position under the path seed, then by position and cost.
    pub proof fn queued_entries_are_ranked(&self, entry: OpenEntry)
        requires
            self.wf(),
            self.queued().contains(entry),
        ensures
            entry == tree::ranked(
                self.problem(),
                self.destination(),
                self.guided(),
                entry.pos,
                entry.g,
            ),
            self.reached().contains_key(entry.pos),
            self.reached()[entry.pos].g <= entry.g,
    {
    }

    /// A session without an answer is on the course of its search.
    pub proof fn open_sessions_are_on_course(&self)
        requires
            self.wf(),
            self.verdict() is Open,
        ensures
            self.on_course(),
    {
        reveal(followed);
    }

    /// As long as anything waits, some position comes first.
    pub proof fn some_position_comes_first(&self, pos: BlockPos)
        requires
            self.wf(),
            self.verdict() is Open,
            self.waiting(pos),
        ensures
            course::comes_first(
                self.problem(),
                self.destination(),
                self.guided(),
                course::course_after(
                    self.problem(),
                    self.destination(),
                    self.guided(),
                    self.origin(),
                    self.work(),
                ),
                course::first_after(
                    self.problem(),
                    self.destination(),
                    self.guided(),
                    self.origin(),
                    self.work(),
                ),
            ),
    {
        let entry = tree::lemma_some_next_up(self.tree.nodes@, self.tree.open@, pos);
        lemma_front_comes_first(&self.setup, &self.tree, self.expansions, entry);
    }

    /// A position that was examined comes up again only at a lower cost.
    pub proof fn positions_come_up_again_only_cheaper(&self, pos: BlockPos, cost: Cost)
        requires
            self.wf(),
            self.visits().contains((pos, cost)),
            self.waiting(pos),
        ensures
            self.reached()[pos].g < cost,
    {
        reveal(tree::tallied);
    }

    /// A search expands no more often than walks that come to no position twice
    /// can arrive, counting each position once for each cost.
    pub proof fn arrivals_bound_the_work(&self, limit: nat)
        requires
            self.wf(),
            self.problem().few_arrivals(self.origin(), limit),
        ensures
            self.work() <= limit,
    {
        if limit < self.tree.visits@.len() {
            tree::lemma_many_visits(
                self.problem(),
                self.setup.start,
                self.tree.nodes@,
                self.tree.open@,
                self.tree.visits@,
                limit,
            );
        }
    }

    /// After weighing `pos`, the best partial result covers it.
    proof fn lemma_weighed(&self, after: &Self, pos: BlockPos)
        requires
            self.wf(),
            self.terminal is None,
            after.setup == self.setup,
            after.tree.nodes@ == self.tree.nodes@,
            self.tree.nodes@.contains_key(pos),
            forall|p: BlockPos| #[trigger]
                self.tree.nodes@.contains_key(p) && p != pos ==> tree::pending(
                    after.tree.nodes@,
                    after.tree.open@,
                    p,
                ) || !outranks(
                    standing(self.problem(), self.setup.goal, p),
                    self.best_rank(),
                ),
            ({
                let rank = standing(self.problem(), self.setup.goal, pos);
                if outranks(rank, self.best_rank()) {
                    after.best_rank() == rank && after.best == (pos, self.tree.nodes@[pos].g)
                } else {
                    after.best_rank() == self.best_rank() && after.best == self.best
                }
            }),
        ensures
            after.best_wf(),
    {
        assert forall|p: BlockPos| #[trigger]
            after.tree.nodes@.contains_key(p) implies after.waiting(p) || !outranks(
            standing(after.problem(), after.setup.goal, p),
            after.best_rank(),
        ) by {
            assert(self.tree.nodes@.contains_key(p));
        }
    }

    /// Expands a taken node, unless a budget is spent or a rule misbehaves.
    fn enter_node(&mut self, pos: BlockPos, g: Cost, hard_spent: bool) -> (entered: bool)
        requires
            old(self).holds(pos, g),
        ensures
            final(self).wf(),
            final(self).same_search(old(self)),
            final(self).elapsed_compute == old(self).elapsed_compute,
            tree::refines(old(self).tree.nodes@, final(self).tree.nodes@),
            final(self).tree.visits == old(self).tree.visits,
            final(self).expansions == old(self).expansions ==> final(self).tree.nodes@ == old(
                self,
            ).tree.nodes@,
            hard_spent ==> final(self).expansions == old(self).expansions,
            entered ==> final(self).tree.nodes@ == tree::spread(
                old(self).problem(),
                old(self).tree.nodes@,
                pos,
            ),
            entered ==> tree::pending_anew(
                old(self).tree.nodes@,
                old(self).tree.open@,
                final(self).tree.nodes@,
                final(self).tree.open@,
            ),
            old(self).expansions <= final(self).expansions <= old(self).expansions + 1,
            entered ==> final(self).terminal is None && final(self).expansions == old(
                self,
            ).expansions + 1,
            !entered ==> final(self).verdict() is BudgetExhausted,
            !entered && !hard_spent ==> overtaxed(
                old(self).problem(),
                old(self).setup.goal,
                old(self).setup.use_heuristic,
                old(self).setup.start,
                final(self).expansions as nat,
            ),
            entered == (!hard_spent && old(self).expansions < old(self).setup.ctx.max_expansions
                && forall|rule: int|
                0 <= rule < old(self).setup.moves@.len() ==> (#[trigger] old(self).problem().menu(
                    pos,
                    rule,
                )).len() <= MAX_CANDIDATES_PER_MOVE),
    {
        let ghost problem = self.problem();
        let ghost start = self.setup.start;
        if self.expansions >= self.setup.ctx.max_expansions || hard_spent {
            proof {
                if self.expansions >= self.setup.ctx.max_expansions {
                    tree::lemma_many_visits(
                        problem,
                        start,
                        self.tree.nodes@,
                        self.tree.open@,
                        self.tree.visits@,
                        self.setup.ctx.max_expansions as nat,
                    );
                }
                if problem.consistent(self.setup.goal, self.setup.use_heuristic)
                    && !problem.overflows(self.setup.goal, self.setup.use_heuristic, start) {
                    lemma_crowded(&self.setup, &self.tree, pos, self.expansions);
                }
            }
            self.terminal = Some(TerminalStatus::BudgetExhausted);
            return false;
        }
        let ghost hops = tree::lemma_reached(
            problem,
            start,
            self.tree.nodes@,
            self.tree.stamps@,
            pos,
        );
        self.expansions = self.expansions + 1;
        let ghost before = self.tree;
        let entered = self.tree.expand(&self.setup, pos, g, MAX_CANDIDATES_PER_MOVE);
        proof {
            lemma_expanded_in_order(
                &self.setup,
                &before,
                &self.tree,
                self.best,
                (self.expansions - 1) as usize,
                pos,
            );
            if entered {
                lemma_expanded_on_course(
                    &self.setup,
                    &before,
                    &self.tree,
                    (self.expansions - 1) as usize,
                    pos,
                );
            }
        }
        if !entered {
            self.terminal = Some(TerminalStatus::BudgetExhausted);
            proof {
                let rule = choose|rule: int|
                    0 <= rule < self.setup.moves@.len() && (#[trigger] problem.menu(
                        pos,
                        rule,
                    )).len() > MAX_CANDIDATES_PER_MOVE;
                assert(problem.menu(problem.end(start, hops), rule).len()
                    > MAX_CANDIDATES_PER_MOVE);
            }
        }
        entered
    }

    /// Whether the cumulative clock has run out, given this call's time so far.
    fn hard_time_exhausted(&self, this_call: u128) -> (r: bool)
        ensures
            r == (self.elapsed_compute + this_call >= self.hard_time_budget),
    {
        let total: u128 = self.elapsed_compute.saturating_add(this_call);
        total >= self.hard_time_budget
    }

    fn finish_advance(&mut self, this_call: u128)
        requires
            old(self).wf(),
        ensures
            final(self).wf(),
            final(self).same_search(old(self)),
            final(self).verdict() == old(self).verdict(),
            final(self).expansions == old(self).expansions,
            final(self).tree == old(self).tree,
            final(self).best == old(self).best,
            final(self).elapsed_compute == arith::clamp_u128(
                old(self).elapsed_compute + this_call,
            ),
    {
        self.elapsed_compute = self.elapsed_compute.saturating_add(this_call);
    }
}

/// Finds a path to within `ctx.goal_tolerance` Manhattan distance of `goal`.
/// Returns an error instead of a partial path when the goal cannot be reached.
pub fn find_path<W: WorldView + ?Sized, M: Move>(
    world: &W,
    start: BlockPos,
    goal: BlockPos,
    moves: &[M],
    ctx: &MoveContext,
) -> (found: Result<Path, PathError>)
    ensures
        search_answer(
            plain_problem(world, moves, ctx),
            &BlockGoal::around(goal, ctx.goal_tolerance),
            start,
            found,
        ),
{
    let block_goal = BlockGoal::new(goal, ctx.goal_tolerance);
    find_path_to_goal(world, start, &block_goal, moves, ctx)
}

/// The graph of a search without an adaptive model.
pub open spec fn plain_problem<W: WorldView + ?Sized, M: Move>(
    world: &W,
    moves: &[M],
    ctx: &MoveContext,
) -> Problem<M> {
    Problem { terrain: world.terrain(), ctx: *ctx, moves: moves@, model: None }
}

/// What a complete search may answer. A spent budget, which is a matter of the
/// clock too, and a changed goal decide nothing; the other answers are decisive,
/// and take time.
pub open spec fn search_answer<M: Move, G: Goal + ?Sized>(
    problem: Problem<M>,
    goal: &G,
    start: BlockPos,
    found: Result<Path, PathError>,
) -> bool {
    match found {
        Ok(path) => problem.ctx.time_budget_ms > 0 && answers(
            problem,
            goal,
            problem.guided(goal, start),
            start,
            path.nodes@,
            path.total_cost,
        ),
        Err(PathError::NoPath) => problem.ctx.time_budget_ms > 0 && unreachable_goal(
            problem,
            goal,
            start,
        ),
        Err(PathError::SearchBudgetExhausted) => true,
        Err(PathError::Cancelled) => goal.settled_revision() is None,
        Err(PathError::Stuck { .. }) => false,
    }
}

/// Finds an optimal path satisfying a [`Goal`].
pub fn find_path_to_goal<W: WorldView + ?Sized, G: Goal + ?Sized, M: Move>(
    world: &W,
    start: BlockPos,
    goal: &G,
    moves: &[M],
    ctx: &MoveContext,
) -> (found: Result<Path, PathError>)
    ensures
        search_answer(plain_problem(world, moves, ctx), goal, start, found),
{
    let mut clock = RunningClock::new();
    find_path_to_goal_on(world, start, goal, moves, ctx, &mut clock)
}

/// The nanoseconds that a search may take.
pub open spec fn time_limit(ctx: MoveContext) -> int {
    ctx.time_budget_ms * 1_000_000
}

/// Whether the readings of a clock explain how a whole search ended: it went on
/// after every reading within its limit, and after no other. A search that may
/// expand as often as a counter can count might take more than one call.
pub open spec fn timely(
    ctx: MoveContext,
    log: Seq<u128>,
    log_after: Seq<u128>,
    ending: Ending,
) -> bool {
    ctx.max_expansions < usize::MAX ==> {
        &&& pace::extends(log, log_after)
        &&& exists|work: nat| #[trigger]
            pace::explained(pace::since(log, log_after), time_limit(ctx), 0, whole(), ending, work)
    }
}

/// Running a new session to its end is timely.
proof fn lemma_timely<W: WorldView + ?Sized, G: Goal + ?Sized, M: Move>(
    before: SearchSession<'_, W, G, M>,
    after: SearchSession<'_, W, G, M>,
    status: SearchStatus,
    log: Seq<u128>,
    log_after: Seq<u128>,
)
    requires
        before.verdict() is Open,
        before.work() == 0,
        before.time_spent() == 0,
        before.problem().ctx.max_expansions < usize::MAX ==> pace_law(
            before,
            after,
            whole(),
            status,
            log,
            log_after,
        ),
    ensures
        !(status is Invalidated) ==> timely(
            before.problem().ctx,
            log,
            log_after,
            ending_of(status),
        ),
{
    let ctx = before.problem().ctx;
    if ctx.max_expansions < usize::MAX && !(status is Invalidated) {
        assert(time_left(before) == time_limit(ctx));
        assert(pace::explained(
            pace::since(log, log_after),
            time_limit(ctx),
            0,
            whole(),
            ending_of(status),
            after.work(),
        ));
    }
}

/// What a search answers on a clock that always shows `shown`. Past its limit it
/// has no answer, and within it is decided, one way or the other, unless it asks
/// for more than it may expand.
pub open spec fn prompt_answer<M: Move, G: Goal + ?Sized>(
    problem: Problem<M>,
    goal: &G,
    start: BlockPos,
    found: Result<Path, PathError>,
    shown: u128,
) -> bool {
    &&& shown >= time_limit(problem.ctx) ==> found == Err::<Path, PathError>(
        PathError::SearchBudgetExhausted,
    ) || found == Err::<Path, PathError>(PathError::Cancelled)
    &&& leaves_time(shown, time_limit(problem.ctx), problem.ctx.max_expansions) && found == Err::<
        Path,
        PathError,
    >(PathError::SearchBudgetExhausted) ==> taxing(problem, goal, start)
}

/// [`find_path_to_goal`] with its time measured by a given clock.
pub fn find_path_to_goal_on<W: WorldView + ?Sized, G: Goal + ?Sized, M: Move, C: Clock>(
    world: &W,
    start: BlockPos,
    goal: &G,
    moves: &[M],
    ctx: &MoveContext,
    clock: &mut C,
) -> (found: Result<Path, PathError>)
    ensures
        final(clock).reading() == old(clock).reading(),
        pace::extends(old(clock).log(), final(clock).log()),
        search_answer(plain_problem(world, moves, ctx), goal, start, found),
        old(clock).reading() matches Some(shown) ==> prompt_answer(
            plain_problem(world, moves, ctx),
            goal,
            start,
            found,
            shown,
        ),
        found != Err::<Path, PathError>(PathError::Cancelled) ==> timely(
            *ctx,
            old(clock).log(),
            final(clock).log(),
            if found == Err::<Path, PathError>(PathError::SearchBudgetExhausted) {
                Ending::Spent
            } else {
                Ending::Answered
            },
        ),
{
    let mut session = SearchSession::new(world, start, goal, moves, ctx);
    let ghost before = session;
    let status = session.run_on(clock);
    proof {
        lemma_timely(before, session, status, old(clock).log(), clock.log());
    }
    match status {
        SearchStatus::Found(path) => Ok(path),
        SearchStatus::Exhausted => Err(PathError::NoPath),
        SearchStatus::BudgetExhausted | SearchStatus::InProgress => {
            Err(PathError::SearchBudgetExhausted)
        },
        SearchStatus::Invalidated(_) => Err(PathError::Cancelled),
    }
}

/// Whether a path stays where it starts.
pub open spec fn stays(path: Path) -> bool {
    path.nodes@.len() == 1 && path.total_cost == 0
}

/// What a best-effort search answers on a clock that always shows `shown`. Past
/// its limit it stays where it starts, and within it a partial path is the last
/// word.
pub open spec fn prompt_effort<M: Move, G: Goal + ?Sized>(
    problem: Problem<M>,
    goal: &G,
    start: BlockPos,
    path: Path,
    complete: bool,
    shown: u128,
) -> bool {
    &&& shown >= time_limit(problem.ctx) ==> !complete && stays(path)
    &&& leaves_time(shown, time_limit(problem.ctx), problem.ctx.max_expansions) && !complete
        ==> last_word(problem, goal, start, path)
}

/// Whether the readings of a clock explain how a best-effort search ended. A
/// partial path comes once a budget is spent, or nothing that can be reached
/// finishes, or the goal changed.
pub open spec fn timely_effort<M: Move, G: Goal + ?Sized>(
    problem: Problem<M>,
    goal: &G,
    start: BlockPos,
    log: Seq<u128>,
    log_after: Seq<u128>,
    complete: bool,
) -> bool {
    if complete {
        timely(problem.ctx, log, log_after, Ending::Answered)
    } else {
        ||| goal.settled_revision() is None
        ||| timely(problem.ctx, log, log_after, Ending::Spent)
        ||| unreachable_goal(problem, goal, start) && timely(
            problem.ctx,
            log,
            log_after,
            Ending::Answered,
        )
    }
}

/// What a best-effort search may answer: a complete path that answers the
/// search, or a partial walk from the start that is a cheapest one to its end,
/// the best of the positions that the search came to examine.
pub open spec fn best_effort_answer<M: Move, G: Goal + ?Sized>(
    problem: Problem<M>,
    goal: &G,
    start: BlockPos,
    path: Path,
    complete: bool,
) -> bool {
    &&& path.nodes@.len() > 0
    &&& path.nodes@[0] == (PathNode { pos: start, reached_by: MoveKind::Start })
    &&& partial_walk(problem, start, path.nodes@, path.total_cost)
    &&& !complete ==> progresses(problem, goal, start, path.nodes@, path.total_cost)
    &&& !complete ==> direct(
        problem,
        goal,
        problem.guided(goal, start),
        start,
        path.nodes@,
        path.total_cost,
    )
    &&& !complete ==> course::best_so_far(
        problem,
        goal,
        problem.guided(goal, start),
        start,
        path.nodes@.last().pos,
        path.total_cost,
    )
    &&& problem.ctx.time_budget_ms == 0 ==> !complete && stays(path)
    &&& complete ==> answers(
        problem,
        goal,
        problem.guided(goal, start),
        start,
        path.nodes@,
        path.total_cost,
    )
}

/// Finds a complete path when possible, or the best reachable partial path.
/// The boolean is `true` only when the goal was reached. The path always starts
/// at `start`; if no progress is possible, it contains only that node.
pub fn find_path_best_effort<W: WorldView + ?Sized, M: Move>(
    world: &W,
    start: BlockPos,
    goal: BlockPos,
    moves: &[M],
    ctx: &MoveContext,
) -> (found: (Path, bool))
    ensures
        best_effort_answer(
            plain_problem(world, moves, ctx),
            &BlockGoal::around(goal, ctx.goal_tolerance),
            start,
            found.0,
            found.1,
        ),
{
    let block_goal = BlockGoal::new(goal, ctx.goal_tolerance);
    find_path_to_goal_best_effort(world, start, &block_goal, moves, ctx)
}

/// Goal-trait counterpart to [`find_path_best_effort`].
///
/// A concurrent goal revision change stops the search and returns the best
/// partial path with `false`; use [`SearchSession`] directly when the caller
/// needs to distinguish invalidation from exhaustion.
pub fn find_path_to_goal_best_effort<W: WorldView + ?Sized, G: Goal + ?Sized, M: Move>(
    world: &W,
    start: BlockPos,
    goal: &G,
    moves: &[M],
    ctx: &MoveContext,
) -> (found: (Path, bool))
    ensures
        best_effort_answer(plain_problem(world, moves, ctx), goal, start, found.0, found.1),
{
    let mut clock = RunningClock::new();
    find_path_to_goal_best_effort_on(world, start, goal, moves, ctx, &mut clock)
}

/// Whether a partial path is the last word: nothing finishes, and no position
/// that can be reached is better than where the path ends. A search with time
/// left returns nothing less unless its goal changed or it asks for more than it
/// may expand.
pub open spec fn last_word<M: Move, G: Goal + ?Sized>(
    problem: Problem<M>,
    goal: &G,
    start: BlockPos,
    path: Path,
) -> bool {
    ||| goal.settled_revision() is None
    ||| taxing(problem, goal, start)
    ||| unreachable_goal(problem, goal, start) && forall|hops: Seq<Hop>|
        problem.walkable(start, hops) ==> !outranks(
            standing(problem, goal, #[trigger] problem.end(start, hops)),
            standing(problem, goal, path.nodes@.last().pos),
        )
}

/// [`find_path_to_goal_best_effort`] with its time measured by a given clock.
pub fn find_path_to_goal_best_effort_on<
    W: WorldView + ?Sized,
    G: Goal + ?Sized,
    M: Move,
    C: Clock,
>(
    world: &W,
    start: BlockPos,
    goal: &G,
    moves: &[M],
    ctx: &MoveContext,
    clock: &mut C,
) -> (found: (Path, bool))
    ensures
        final(clock).reading() == old(clock).reading(),
        pace::extends(old(clock).log(), final(clock).log()),
        best_effort_answer(plain_problem(world, moves, ctx), goal, start, found.0, found.1),
        old(clock).reading() matches Some(shown) ==> prompt_effort(
            plain_problem(world, moves, ctx),
            goal,
            start,
            found.0,
            found.1,
            shown,
        ),
        timely_effort(
            plain_problem(world, moves, ctx),
            goal,
            start,
            old(clock).log(),
            final(clock).log(),
            found.1,
        ),
{
    let mut session = SearchSession::new(world, start, goal, moves, ctx);
    let ghost before = session;
    let status = session.run_on(clock);
    proof {
        lemma_timely(before, session, status, old(clock).log(), clock.log());
    }
    if let SearchStatus::Found(path) = status {
        return (path, true);
    }
    proof {
        session.lemma_exhausted_best();
    }
    (session.best_path(), false)
}

/// The step that a hop of a path takes, with the metadata its rule authored.
pub open spec fn authored_step<M: Move>(
    problem: Problem<M>,
    path: Seq<PathNode>,
    hops: Seq<Hop>,
    i: int,
) -> MotionStep {
    let from = path[i].pos;
    let metadata = problem.account(from, hops[i].rule, problem.edge(from, hops[i]))->0;
    MotionStep {
        edge_index: i as u32,
        from,
        to: path[i + 1].pos,
        kind: path[i + 1].reached_by,
        primitive: metadata.primitive,
        features: metadata.features,
        predicted: metadata.predicted,
        predicted_ticks: metadata.predicted_ticks,
    }
}

/// Whether the steps of a plan are those of a walk along its path, each with the
/// metadata that its rule authored for it.
pub open spec fn authored<M: Move>(
    problem: Problem<M>,
    start: BlockPos,
    path: Path,
    steps: Seq<MotionStep>,
) -> bool {
    exists|hops: Seq<Hop>|
        {
            &&& #[trigger] tree::realizes(problem, start, path.nodes@, hops)
            &&& arith::clamp_u32(problem.length(start, hops)) <= path.total_cost
            &&& steps.len() == hops.len()
            &&& forall|i: int|
                0 <= i < steps.len() ==> #[trigger] steps[i] == authored_step(
                    problem,
                    path.nodes@,
                    hops,
                    i,
                ) && problem.account(
                    path.nodes@[i].pos,
                    hops[i].rule,
                    problem.edge(path.nodes@[i].pos, hops[i]),
                ) is Some
        }
}

/// Whether a rule does not describe one of its transitions somewhere that can be
/// walked to.
pub open spec fn undescribed<M: Move>(problem: Problem<M>, start: BlockPos) -> bool {
    exists|hops: Seq<Hop>, hop: Hop|
        problem.walkable(start, hops) && #[trigger] problem.legal(problem.end(start, hops), hop)
            && problem.account(
            problem.end(start, hops),
            hop.rule,
            problem.edge(problem.end(start, hops), hop),
        ) is None
}

/// A recorded path has the plan that its rules authored, unless its last node
/// was improved since or a rule did not describe a step.
proof fn lemma_recorded_plan<M: Move>(
    problem: Problem<M>,
    start: BlockPos,
    nodes: Map<BlockPos, NodeData>,
    stamps: Map<BlockPos, nat>,
    path: Path,
)
    requires
        tree::rooted(nodes, start),
        tree::linked(problem, start, nodes, stamps),
        tree::traces(nodes, start, path.nodes@.last().pos, path.nodes@),
    ensures
        match plan_fault(nodes, path.nodes@, path.total_cost) {
            None => authored(problem, start, path, recorded_steps(nodes, path.nodes@)),
            Some(MotionPlanError::MetadataMismatch) => nodes[path.nodes@.last().pos].g
                != path.total_cost,
            Some(MotionPlanError::MissingGeneratedMetadata) => undescribed(problem, start),
            Some(MotionPlanError::InvalidStartTransition) => false,
        },
{
    let trail = path.nodes@;
    let hops = tree::lemma_trace_is_walk(problem, start, nodes, stamps, trail.last().pos, trail);
    if trail.len() > 1 {
        assert(tree::trace_step(nodes, trail, trail.len() - 1));
    }
    if exists|i: int| 0 < i < trail.len() && #[trigger] edge_fault(nodes, trail, i) is Some {
        let i = choose|i: int|
            0 < i < trail.len() && #[trigger] edge_fault(nodes, trail, i) is Some;
        assert(tree::trace_step(nodes, trail, i));
        assert(tree::accounts_step(problem, nodes, trail, hops, i));
        lemma_faults_are_gaps(nodes, start, trail, 1);
        lemma_fault_is_found(nodes, trail, 1, i);
        problem.lemma_cut(start, hops, i - 1);
        problem.lemma_cut(problem.end(start, hops.take(i - 1)), hops.skip(i - 1), 1);
        assert(hops.skip(i - 1).take(1) =~= seq![hops[i - 1]]);
        let before = hops.take(i - 1);
        assert(seq![hops[i - 1]] =~= Seq::<Hop>::empty().push(hops[i - 1]));
        problem.lemma_push(problem.end(start, before), Seq::<Hop>::empty(), hops[i - 1]);
        if i > 1 {
            assert(tree::realizes_step(problem, start, trail, hops, i - 1));
        } else {
            assert(before =~= Seq::<Hop>::empty());
        }
        assert(problem.legal(problem.end(start, before), hops[i - 1]));
    } else {
        lemma_no_edge_fault(nodes, trail, 1);
        if nodes[trail.last().pos].g == path.total_cost {
            let steps = recorded_steps(nodes, trail);
            assert forall|i: int| 0 <= i < steps.len() implies #[trigger] steps[i]
                == authored_step(problem, trail, hops, i) && problem.account(
                trail[i].pos,
                hops[i].rule,
                problem.edge(trail[i].pos, hops[i]),
            ) is Some by {
                assert(tree::trace_step(nodes, trail, i + 1));
                assert(tree::accounts_step(problem, nodes, trail, hops, i + 1));
                assert(edge_fault(nodes, trail, i + 1) is None);
            }
            assert(tree::realizes(problem, start, trail, hops));
        }
    }
}

/// The faults of a recorded path are gaps in its metadata.
proof fn lemma_faults_are_gaps(
    nodes: Map<BlockPos, NodeData>,
    start: BlockPos,
    path: Seq<PathNode>,
    i: int,
)
    requires
        0 < i,
        tree::traces(nodes, start, path.last().pos, path),
    ensures
        first_edge_fault(nodes, path, i) matches Some(fault) ==> fault
            == MotionPlanError::MissingGeneratedMetadata,
    decreases path.len() - i,
{
    if i < path.len() {
        assert(tree::trace_step(nodes, path, i));
        lemma_faults_are_gaps(nodes, start, path, i + 1);
    }
}

proof fn lemma_fault_is_found(
    nodes: Map<BlockPos, NodeData>,
    path: Seq<PathNode>,
    i: int,
    fault: int,
)
    requires
        i <= fault < path.len(),
        edge_fault(nodes, path, fault) is Some,
    ensures
        first_edge_fault(nodes, path, i) is Some,
    decreases path.len() - i,
{
    if i < fault {
        lemma_fault_is_found(nodes, path, i + 1, fault);
    }
}

proof fn lemma_no_edge_fault(nodes: Map<BlockPos, NodeData>, path: Seq<PathNode>, i: int)
    requires
        0 < i,
        forall|k: int| 0 < k < path.len() ==> #[trigger] edge_fault(nodes, path, k) is None,
    ensures
        first_edge_fault(nodes, path, i) is None,
    decreases path.len() - i,
{
    if i < path.len() {
        assert(edge_fault(nodes, path, i) is None);
        lemma_no_edge_fault(nodes, path, i + 1);
    }
}

/// Joins a recorded path with its metadata.
fn plan_for<W: WorldView + ?Sized, G: Goal + ?Sized, M: Move>(
    session: &SearchSession<'_, W, G, M>,
    path: Path,
    complete: bool,
) -> (made: Result<(MotionPlan, bool), MotionPlanError>)
    requires
        session.wf(),
        tree::traces(session.reached(), session.origin(), path.nodes@.last().pos, path.nodes@),
    ensures
        match made {
            Ok((plan, flag)) => {
                &&& flag == complete
                &&& plan.route() == path
                &&& planning::steps_match(path.nodes@, plan.motion())
                &&& authored(session.problem(), session.origin(), path, plan.motion())
            },
            Err(MotionPlanError::MetadataMismatch) => {
                session.reached()[path.nodes@.last().pos].g != path.total_cost
            },
            Err(MotionPlanError::MissingGeneratedMetadata) => undescribed(
                session.problem(),
                session.origin(),
            ),
            Err(MotionPlanError::InvalidStartTransition) => false,
        },
        stays(path) ==> made is Ok,
{
    proof {
        lemma_recorded_plan(
            session.problem(),
            session.setup.start,
            session.tree.nodes@,
            session.tree.stamps@,
            path,
        );
    }
    match session.motion_plan_for(path) {
        Ok(plan) => {
            let _ = plan.steps();
            Ok((plan, complete))
        },
        Err(error) => Err(error),
    }
}

/// The graph of a search with an optional adaptive model.
pub open spec fn adapted_problem<W: WorldView + ?Sized, M: Move>(
    world: &W,
    moves: &[M],
    ctx: &MoveContext,
    cost_model: Option<&CostModelSnapshot>,
) -> Problem<M> {
    Problem {
        terrain: world.terrain(),
        ctx: *ctx,
        moves: moves@,
        model: match cost_model {
            Some(model) => Some(*model),
            None => None,
        },
    }
}

/// Whether some walk leads somewhere better than the start.
pub open spec fn can_progress<M: Move, G: Goal + ?Sized>(
    problem: Problem<M>,
    goal: &G,
    start: BlockPos,
) -> bool {
    exists|hops: Seq<Hop>| #[trigger]
        problem.walkable(start, hops) && outranks(
            standing(problem, goal, problem.end(start, hops)),
            standing(problem, goal, start),
        )
}

/// Whether a search may find a cheaper way to the end of its best partial path
/// after choosing it: there is such a path, and either the estimate drops by
/// more than a hop costs or some cost does not fit its range.
pub open spec fn outdated<M: Move, G: Goal + ?Sized>(
    problem: Problem<M>,
    goal: &G,
    start: BlockPos,
) -> bool {
    let guided = problem.guided(goal, start);
    &&& can_progress(problem, goal, start)
    &&& problem.consistent(goal, guided) ==> problem.overflows(goal, guided, start)
}

/// A partial walk that ends somewhere better than its start shows that some
/// walk does.
proof fn lemma_can_progress<M: Move, G: Goal + ?Sized>(
    problem: Problem<M>,
    goal: &G,
    start: BlockPos,
    path: Seq<PathNode>,
    cost: Cost,
)
    requires
        partial_walk(problem, start, path, cost),
        outranks(standing(problem, goal, path.last().pos), standing(problem, goal, start)),
    ensures
        can_progress(problem, goal, start),
{
    let hops = choose|hops: Seq<Hop>| #[trigger]
        tree::realizes(problem, start, path, hops) && arith::clamp_u32(
            problem.length(start, hops),
        ) <= cost;
    if path.len() > 1 {
        assert(tree::realizes_step(problem, start, path, hops, path.len() - 1));
        assert(hops.take(path.len() - 1) =~= hops);
    }
    assert(problem.walkable(start, hops));
}

/// Plans with generator-authored motion metadata and an optional frozen
/// adaptive model. A graph described throughout has a plan unless a partial
/// path's last node was improved after it was chosen. Missing metadata from a
/// custom movement rule is reported rather than reverse-inferred.
pub fn find_motion_plan_best_effort<W: WorldView + ?Sized, M: Move>(
    world: &W,
    start: BlockPos,
    goal: BlockPos,
    moves: &[M],
    ctx: &MoveContext,
    cost_model: Option<&CostModelSnapshot>,
) -> (found: Result<(MotionPlan, bool), MotionPlanError>)
    ensures
        plan_answer(
            adapted_problem(world, moves, ctx, cost_model),
            &BlockGoal::around(goal, ctx.goal_tolerance),
            start,
            found,
        ),
{
    let mut clock = RunningClock::new();
    find_motion_plan_best_effort_on(world, start, goal, moves, ctx, cost_model, &mut clock)
}

/// What a search for a motion plan may answer: the steps of a best-effort path
/// as their rules authored them, or that a partial path was outdated or a rule
/// does not describe its transitions.
pub open spec fn plan_answer<M: Move, G: Goal + ?Sized>(
    problem: Problem<M>,
    goal: &G,
    start: BlockPos,
    found: Result<(MotionPlan, bool), MotionPlanError>,
) -> bool {
    match found {
        Ok((plan, complete)) => {
            &&& best_effort_answer(problem, goal, start, plan.route(), complete)
            &&& planning::steps_match(plan.route().nodes@, plan.motion())
            &&& authored(problem, start, plan.route(), plan.motion())
        },
        Err(MotionPlanError::MetadataMismatch) => outdated(problem, goal, start),
        Err(MotionPlanError::MissingGeneratedMetadata) => undescribed(problem, start),
        Err(MotionPlanError::InvalidStartTransition) => false,
    }
}

/// [`find_motion_plan_best_effort`] with its time measured by a given clock.
pub fn find_motion_plan_best_effort_on<W: WorldView + ?Sized, M: Move, C: Clock>(
    world: &W,
    start: BlockPos,
    goal: BlockPos,
    moves: &[M],
    ctx: &MoveContext,
    cost_model: Option<&CostModelSnapshot>,
    clock: &mut C,
) -> (found: Result<(MotionPlan, bool), MotionPlanError>)
    ensures
        final(clock).reading() == old(clock).reading(),
        pace::extends(old(clock).log(), final(clock).log()),
        plan_answer(
            adapted_problem(world, moves, ctx, cost_model),
            &BlockGoal::around(goal, ctx.goal_tolerance),
            start,
            found,
        ),
        old(clock).reading() matches Some(shown) ==> {
            &&& shown >= time_limit(*ctx) ==> found is Ok
            &&& found matches Ok((plan, complete)) ==> prompt_effort(
                adapted_problem(world, moves, ctx, cost_model),
                &BlockGoal::around(goal, ctx.goal_tolerance),
                start,
                plan.route(),
                complete,
                shown,
            )
        },
        found matches Ok((plan, complete)) ==> timely_effort(
            adapted_problem(world, moves, ctx, cost_model),
            &BlockGoal::around(goal, ctx.goal_tolerance),
            start,
            old(clock).log(),
            final(clock).log(),
            complete,
        ),
{
    let block_goal = BlockGoal::new(goal, ctx.goal_tolerance);
    let mut session = match cost_model {
        Some(model) => SearchSession::new_with_cost_model(
            world,
            start,
            &block_goal,
            moves,
            ctx,
            model,
        ),
        None => SearchSession::new(world, start, &block_goal, moves, ctx),
    };
    let ghost before = session;
    let status = session.run_on(clock);
    proof {
        lemma_timely(before, session, status, old(clock).log(), clock.log());
    }
    if let SearchStatus::Found(path) = status {
        return plan_for(&session, path, true);
    }
    let best = session.best_path();
    proof {
        session.lemma_exhausted_best();
        if best.nodes@.len() > 1 || best.total_cost != 0 {
            lemma_can_progress(
                session.problem(),
                &block_goal,
                start,
                best.nodes@,
                best.total_cost,
            );
        }
    }
    plan_for(&session, best, false)
}

/// A completed search with the standard moves and a block goal is optimal, for
/// all movement costs: its cost is the least of all walks that finish, and the
/// path it lists is such a walk.
pub proof fn standard_searches_are_optimal(
    problem: Problem<crate::local::rules::builtin::BuiltinMove>,
    target: BlockGoal,
    guided: bool,
    start: BlockPos,
    path: Seq<PathNode>,
    cost: Cost,
)
    requires
        answers(problem, &target, guided, start, path, cost),
        problem.model matches Some(model) ==> !model.routes(),
    ensures
        problem.optimal(&target, start, cost),
        exists|hops: Seq<Hop>| #[trigger]
            tree::realizes(problem, start, path, hops) && problem.finishes(
                &target,
                problem.end(start, hops),
            ) && cost == arith::clamp_u32(problem.length(start, hops)),
{
    graph_model::block_goals_are_admissible(problem, target);
}

/// With the standard moves and a block goal, a search that falls short of its
/// goal still returns a cheapest path to where it got, at its exact cost, as
/// long as no position costs more to walk to than a [`Cost`] holds.
pub proof fn partial_paths_are_cheapest(
    problem: Problem<crate::local::rules::builtin::BuiltinMove>,
    target: BlockGoal,
    start: BlockPos,
    path: Path,
)
    requires
        best_effort_answer(problem, &target, start, path, false),
        !problem.overflows(&target, problem.guided(&target, start), start),
    ensures
        problem.cheapest(start, path.nodes@.last().pos, path.total_cost as int),
        exists|hops: Seq<Hop>| #[trigger]
            tree::realizes(problem, start, path.nodes@, hops) && path.total_cost
                == arith::clamp_u32(problem.length(start, hops)),
{
    graph_model::unguided_searches_are_consistent(problem, &target);
    if problem.guided(&target, start) {
        graph_model::block_goals_are_consistent(problem, target);
    }
}

/// A search that is not guided is optimal whatever its moves and its goal are.
pub proof fn unguided_searches_are_optimal<M: Move, G: Goal + ?Sized>(
    problem: Problem<M>,
    goal: &G,
    start: BlockPos,
    path: Seq<PathNode>,
    cost: Cost,
)
    requires
        answers(problem, goal, false, start, path, cost),
    ensures
        problem.optimal(goal, start, cost),
{
    assert forall|pos: BlockPos, hops: Seq<Hop>|
        problem.walkable(pos, hops) && problem.finishes(
            goal,
            #[trigger] problem.end(pos, hops),
        ) implies problem.estimate(goal, false, pos) <= problem.length(pos, hops) by {
        problem.lemma_length_nonneg(pos, hops);
    }
}

/// However a search is sliced, every completed search of the same graph reports
/// the same path.
pub proof fn slicing_does_not_change_the_path<M: Move, G: Goal + ?Sized>(
    problem: Problem<M>,
    goal: &G,
    guided: bool,
    start: BlockPos,
    path: Seq<PathNode>,
    cost: Cost,
    other_path: Seq<PathNode>,
    other_cost: Cost,
)
    requires
        answers(problem, goal, guided, start, path, cost),
        answers(problem, goal, guided, start, other_path, other_cost),
    ensures
        path == other_path,
        cost == other_cost,
{
    course::one_path_is_chosen(
        problem,
        goal,
        guided,
        start,
        path,
        cost,
        other_path,
        other_cost,
    );
}

/// A search that found a path and one that exhausted the same graph exclude
/// each other.
pub proof fn answers_exclude_exhaustion<M: Move, G: Goal + ?Sized>(
    problem: Problem<M>,
    goal: &G,
    guided: bool,
    start: BlockPos,
    path: Seq<PathNode>,
    cost: Cost,
)
    requires
        answers(problem, goal, guided, start, path, cost),
    ensures
        !unreachable_goal(problem, goal, start),
{
    let hops = choose|hops: Seq<Hop>| #[trigger]
        tree::realizes(problem, start, path, hops) && problem.finishes(
            goal,
            problem.end(start, hops),
        );
    assert(problem.walkable(start, hops));
    assert(problem.finishes(goal, problem.end(start, hops)));
}

} // verus!
