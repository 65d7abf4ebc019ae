use std::collections::HashMap;

use azalea_pathfinder::local::astar::{
    find_motion_plan_best_effort_on, find_path_to_goal_best_effort_on, find_path_to_goal_on, Turn,
};
use azalea_pathfinder::local::clock::{Clock, StoppedClock};
use azalea_pathfinder::local::world::standable_by_blocks;
use azalea_pathfinder::resilience::{
    transition_dependency_footprint, DependencyOptions, OverlayEpoch, PathDependencyIndex, RouteRevisions, WorldChangeBatch, WorldScope,
};
use azalea_pathfinder::{
    default_moves, find_path, find_path_best_effort, lava_risk, BlockGoal, BlockKind, BlockPos, Goal, MoveContext,
    MoveKind, Path, PathError, SearchSession, SearchSlice, SearchStatus, WorldSnapshot, WorldView,
};

/// A world made of listed blocks on an endless floor at height 63.
struct Field(HashMap<(i32, i32, i32), BlockKind>);

impl WorldView for Field {
    fn block(&self, pos: BlockPos) -> BlockKind {
        match self.0.get(&(pos.x, pos.y, pos.z)) {
            Some(kind) => *kind,
            None if pos.y <= 63 => BlockKind::Solid,
            None => BlockKind::Air,
        }
    }

    fn standable(&self, pos: BlockPos) -> bool {
        standable_by_blocks(self, pos)
    }
}

fn pos(x: i32, y: i32, z: i32) -> BlockPos {
    BlockPos { x, y, z }
}

fn field() -> Field {
    Field(HashMap::new())
}

fn planned(world: &Field, goal: BlockPos, ctx: &MoveContext) -> Path {
    find_path(world, pos(0, 64, 0), goal, &default_moves(), ctx).unwrap()
}

#[test]
fn routes_keep_their_distance_from_lava() {
    let mut world = field();
    for z in -2..=2 {
        world.0.insert((8, 63, z), BlockKind::Lava);
    }
    let ctx = MoveContext::default();
    let path = planned(&world, pos(16, 64, 0), &ctx);
    assert!(path.nodes.len() > 10);
    for node in &path.nodes {
        assert_eq!(lava_risk(node.pos, &world, 2), 0);
        assert!(world.standable(node.pos));
    }
}

#[test]
fn routes_from_dry_land_stay_dry() {
    let mut world = field();
    for z in -3..=3 {
        world.0.insert((6, 63, z), BlockKind::Water);
        world.0.insert((7, 63, z), BlockKind::Water);
    }
    let ctx = MoveContext::default();
    let path = planned(&world, pos(14, 64, 0), &ctx);
    for node in &path.nodes {
        assert_ne!(world.block(node.pos), BlockKind::Water);
    }
}

#[test]
fn routes_end_where_the_known_world_ends() {
    let world = field();
    let snapshot = WorldSnapshot::capture(&world, pos(-4, 60, -4), pos(8, 70, 4));
    let ctx = MoveContext::default();
    let (path, reached) = find_path_best_effort(
        &snapshot,
        pos(0, 64, 0),
        pos(40, 64, 0),
        &default_moves(),
        &ctx,
    );
    assert!(!reached);
    for node in &path.nodes {
        assert_ne!(snapshot.block(node.pos), BlockKind::Unloaded);
    }
    assert_eq!(path.nodes.last().unwrap().pos.x, 8);
}

#[test]
fn no_drop_is_deeper_than_the_limit() {
    let mut world = field();
    for x in 3..=12 {
        for z in -6..=6 {
            for y in 52..=63 {
                world.0.insert((x, y, z), BlockKind::Air);
            }
        }
    }
    let ctx = MoveContext { max_expansions: 2_000, ..MoveContext::default() };
    let deep = find_path(&world, pos(0, 64, 0), pos(7, 52, 0), &default_moves(), &ctx);
    assert!(deep.is_err());
    let brave = MoveContext { max_fall: 12, ..MoveContext::default() };
    let path = find_path(&world, pos(0, 64, 0), pos(7, 52, 0), &default_moves(), &brave).unwrap();
    for pair in path.nodes.windows(2) {
        assert!(pair[0].pos.y - pair[1].pos.y <= 12);
    }
    assert!(path.nodes.iter().any(|node| node.reached_by == MoveKind::Fall));
}

#[test]
fn seeds_choose_between_routes_of_one_cost() {
    let mut world = field();
    for z in -1..=1 {
        world.0.insert((5, 64, z), BlockKind::Solid);
        world.0.insert((5, 65, z), BlockKind::Solid);
    }
    let baseline = planned(&world, pos(10, 64, 0), &MoveContext::default());
    for seed in [1, 2, 3, 99, u64::MAX] {
        let ctx = MoveContext { path_seed: seed, ..MoveContext::default() };
        let path = planned(&world, pos(10, 64, 0), &ctx);
        assert_eq!(path.total_cost, baseline.total_cost);
    }
}

#[test]
fn changes_outside_every_footprint_leave_a_route_alone() {
    let mut world = field();
    world.0.insert((4, 64, 0), BlockKind::Solid);
    let ctx = MoveContext::default();
    let before = planned(&world, pos(8, 64, 0), &ctx);
    let scope = WorldScope::try_new("server:1", "overworld").unwrap();
    let revisions = RouteRevisions {
        path: 1,
        world_basis: 1,
        cost_model: 1,
        dynamic_obstacles: OverlayEpoch { revision: 1, valid_until_tick: None },
    };
    let mut index = PathDependencyIndex::build_builtin(&before, scope.clone(), revisions, &ctx);
    let change = |blocks: &[BlockPos], index: &mut PathDependencyIndex, from: u64| {
        index
            .earliest_affected(&WorldChangeBatch {
                scope: &scope,
                path_revision: 1,
                from_world_revision: from,
                to_world_revision: from + 1,
                current_cost_model: 1,
                current_dynamic_obstacles: revisions.dynamic_obstacles,
                now_tick: 0,
                changed_blocks: blocks,
                changed_chunks: &[],
            })
            .unwrap()
    };
    let far = [pos(3, 64, 20), pos(8, 60, 0), pos(-20, 64, 0)];
    assert_eq!(change(&far, &mut index, 1), None);
    for at in &far {
        world.0.insert((at.x, at.y, at.z), BlockKind::Lava);
    }
    let after = planned(&world, pos(8, 64, 0), &ctx);
    assert_eq!(after.total_cost, before.total_cost);
    assert_eq!(after.nodes, before.nodes);
    let near = [pos(7, 64, 1)];
    assert!(change(&near, &mut index, 2).is_some());
}

#[test]
fn footprints_of_planned_moves_are_never_broad() {
    let mut world = field();
    for x in 4..=6 {
        for z in -6..=6 {
            for y in 58..=63 {
                world.0.insert((x, y, z), BlockKind::Air);
            }
        }
    }
    world.0.insert((9, 64, 0), BlockKind::Solid);
    let ctx = MoveContext::default();
    let options = DependencyOptions::from_context(&ctx);
    let path = planned(&world, pos(12, 64, 0), &ctx);
    for (index, pair) in path.nodes.windows(2).enumerate() {
        let footprint = transition_dependency_footprint(
            index,
            pair[0].pos,
            pair[1].pos,
            pair[1].reached_by,
            options,
        );
        assert!(!footprint.invalidates_on_any_change());
        assert!(footprint.contains(pair[1].pos));
    }
}

#[test]
fn goals_carry_the_revision_they_are_given() {
    let goal = BlockGoal::new(pos(3, 64, 5), 2);
    assert_eq!(goal.revision(), 0);
    let revised = goal.with_revision(9);
    assert_eq!(revised.revision(), 9);
    assert_eq!(revised.target(), pos(3, 64, 5));
    assert!(revised.is_satisfied(pos(4, 64, 6)));
    assert!(!revised.is_satisfied(pos(5, 64, 6)));
}

#[test]
fn partial_paths_are_cheapest_to_where_they_end() {
    let mut world = field();
    for z in -2..=3 {
        world.0.insert((4, 64, z), BlockKind::Solid);
        world.0.insert((4, 65, z), BlockKind::Solid);
    }
    let snapshot = WorldSnapshot::capture(&world, pos(-4, 60, -4), pos(8, 70, 4));
    let ctx = MoveContext { goal_tolerance: 0, ..MoveContext::default() };
    let (partial, reached) = find_path_best_effort(
        &snapshot,
        pos(0, 64, 0),
        pos(40, 64, 0),
        &default_moves(),
        &ctx,
    );
    assert!(!reached);
    let end = partial.nodes.last().unwrap().pos;
    assert!(end.x > 4);
    let whole = find_path(&snapshot, pos(0, 64, 0), end, &default_moves(), &ctx).unwrap();
    assert_eq!(partial.total_cost, whole.total_cost);
}

#[test]
fn searches_with_time_left_are_decided() {
    let world = field();
    let snapshot = WorldSnapshot::capture(&world, pos(-4, 60, -4), pos(8, 70, 4));
    let ctx = MoveContext { goal_tolerance: 0, time_budget_ms: 1, ..MoveContext::default() };
    let mut still = StoppedClock::new(0);
    let near = BlockGoal::new(pos(6, 64, 0), 0);
    let found =
        find_path_to_goal_on(&snapshot, pos(0, 64, 0), &near, &default_moves(), &ctx, &mut still);
    assert_eq!(found.unwrap().nodes.last().unwrap().pos, pos(6, 64, 0));
    let far = BlockGoal::new(pos(40, 64, 0), 0);
    let missed =
        find_path_to_goal_on(&snapshot, pos(0, 64, 0), &far, &default_moves(), &ctx, &mut still);
    assert!(matches!(missed, Err(PathError::NoPath)));
    let (path, reached) = find_path_to_goal_best_effort_on(
        &snapshot,
        pos(0, 64, 0),
        &far,
        &default_moves(),
        &ctx,
        &mut still,
    );
    assert!(!reached);
    assert_eq!(path.nodes.last().unwrap().pos.x, 8);
}

#[test]
fn searches_that_are_late_give_up_at_once() {
    let world = field();
    let ctx = MoveContext { time_budget_ms: 1, ..MoveContext::default() };
    let here = BlockGoal::new(pos(0, 64, 0), 0);
    let search = |shown: u128| {
        let mut clock = StoppedClock::new(shown);
        find_path_to_goal_on(&world, pos(0, 64, 0), &here, &default_moves(), &ctx, &mut clock)
    };
    assert!(search(999_999).is_ok());
    assert!(matches!(search(1_000_000), Err(PathError::SearchBudgetExhausted)));
}

#[test]
fn slices_add_up_their_time() {
    let world = field();
    let ctx = MoveContext { time_budget_ms: 1, ..MoveContext::default() };
    let far = BlockGoal::new(pos(30, 64, 0), 0);
    let moves = default_moves();
    let mut session = SearchSession::new(&world, pos(0, 64, 0), &far, &moves, &ctx);
    let mut clock = StoppedClock::new(400_000);
    let first = session.advance_on(SearchSlice::new(1), &mut clock);
    assert!(matches!(first, SearchStatus::InProgress));
    assert_eq!(session.expansions(), 1);
    assert_eq!(session.elapsed_compute(), 400_000);
    let hurried = SearchSlice::new(5).with_time_budget(400_000);
    let second = session.advance_on(hurried, &mut clock);
    assert!(matches!(second, SearchStatus::InProgress));
    assert_eq!(session.expansions(), 1);
    assert_eq!(session.elapsed_compute(), 800_000);
    let third = session.advance_on(SearchSlice::new(1), &mut clock);
    assert!(matches!(third, SearchStatus::BudgetExhausted));
    assert_eq!(session.expansions(), 1);
}

/// A clock that shows what is listed, one reading after another.
struct ListedClock {
    listed: Vec<u128>,
    taken: usize,
}

impl ListedClock {
    fn new(listed: &[u128]) -> Self {
        Self {
            listed: listed.to_vec(),
            taken: 0,
        }
    }
}

impl Clock for ListedClock {
    fn start(&mut self) {}

    fn nanos(&mut self) -> u128 {
        self.taken += 1;
        self.listed[self.taken - 1]
    }
}

#[test]
fn every_turn_and_every_expansion_is_held_to_the_limit() {
    let world = field();
    let ctx = MoveContext { goal_tolerance: 0, time_budget_ms: 1, ..MoveContext::default() };
    let near = BlockGoal::new(pos(1, 64, 0), 0);
    let moves = default_moves();
    let run = |listed: &[u128]| {
        let mut session = SearchSession::new(&world, pos(0, 64, 0), &near, &moves, &ctx);
        let mut clock = ListedClock::new(listed);
        let status = session.advance_on(SearchSlice::unlimited(), &mut clock);
        (status, session.expansions(), session.elapsed_compute(), clock.taken)
    };
    // A turn, the expansion of the start, the turn that finds the goal, the end.
    let (status, work, spent, taken) = run(&[1, 2, 3, 4]);
    assert!(matches!(status, SearchStatus::Found(_)));
    assert_eq!((work, spent, taken), (1, 4, 4));
    // The answer stands though the clock has run out once it is there.
    let (status, work, spent, taken) = run(&[1, 2, 3, 2_000_000]);
    assert!(matches!(status, SearchStatus::Found(_)));
    assert_eq!((work, spent, taken), (1, 2_000_000, 4));
    // It is not looked for once the clock has run out.
    let (status, work, spent, taken) = run(&[1, 2, 1_000_000]);
    assert!(matches!(status, SearchStatus::BudgetExhausted));
    assert_eq!((work, spent, taken), (1, 1_000_000, 3));
    let (status, work, _, taken) = run(&[1, 1_000_000]);
    assert!(matches!(status, SearchStatus::BudgetExhausted));
    assert_eq!((work, taken), (0, 2));
    let (status, work, _, taken) = run(&[1_000_000]);
    assert!(matches!(status, SearchStatus::BudgetExhausted));
    assert_eq!((work, taken), (0, 1));
}

#[test]
fn one_turn_goes_by_the_reading_it_is_given() {
    let world = field();
    let ctx = MoveContext { time_budget_ms: 1, ..MoveContext::default() };
    let far = BlockGoal::new(pos(30, 64, 0), 0);
    let moves = default_moves();
    let mut session = SearchSession::new(&world, pos(0, 64, 0), &far, &moves, &ctx);
    let slice = SearchSlice::new(2).with_time_budget(500);
    let mut clock = ListedClock::new(&[7]);
    assert!(matches!(session.turn_on(slice, 0, 499, &mut clock), Turn::Expanded));
    assert_eq!((session.expansions(), session.elapsed_compute()), (1, 0));
    let mut unread = ListedClock::new(&[]);
    assert!(matches!(
        session.turn_on(slice, 1, 500, &mut unread),
        Turn::Over(SearchStatus::InProgress)
    ));
    assert_eq!((session.expansions(), session.elapsed_compute()), (1, 500));
    assert!(matches!(
        session.turn_on(slice, 0, 999_500, &mut unread),
        Turn::Over(SearchStatus::BudgetExhausted)
    ));
    assert_eq!((session.expansions(), session.elapsed_compute()), (1, 1_000_000));
    assert!(session.is_terminal());
}

#[test]
fn late_searches_stay_where_they_start() {
    let world = field();
    let ctx = MoveContext { goal_tolerance: 0, time_budget_ms: 1, ..MoveContext::default() };
    let near = BlockGoal::new(pos(6, 64, 0), 0);
    let mut late = StoppedClock::new(1_000_000);
    let (path, reached) = find_path_to_goal_best_effort_on(
        &world,
        pos(0, 64, 0),
        &near,
        &default_moves(),
        &ctx,
        &mut late,
    );
    assert_eq!((path.nodes.len(), path.total_cost, reached), (1, 0, false));
    let plan = |shown: u128| {
        let mut clock = StoppedClock::new(shown);
        find_motion_plan_best_effort_on(
            &world,
            pos(0, 64, 0),
            pos(6, 64, 0),
            &default_moves(),
            &ctx,
            None,
            &mut clock,
        )
        .unwrap()
    };
    let (motion, reached) = plan(1_000_000);
    assert_eq!((motion.path().nodes.len(), reached), (1, false));
    let (motion, reached) = plan(999_999);
    assert_eq!((motion.path().nodes.len(), reached), (7, true));
}
