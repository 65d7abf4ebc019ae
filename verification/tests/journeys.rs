use azalea_pathfinder::adaptive::NonceAllocator;
use azalea_pathfinder::local::clock::StoppedClock;
use azalea_pathfinder::local::follower::Aim;
use azalea_pathfinder::local::line::LineSample;
use azalea_pathfinder::local::settings::Real64;
use azalea_pathfinder::local::world::standable_by_blocks;
use azalea_pathfinder::plugin::bounds::snapshot_bounds;
use azalea_pathfinder::plugin::legs::{
    adaptive_leg_seed, leg_context, leg_observation_context, plan_leg, plan_leg_on,
    survivable_fall_limit, PlanResult, LEG_SEED_STEP,
};
use azalea_pathfinder::plugin::memory::AvoidMemory;
use azalea_pathfinder::plugin::navigation::{
    conclude_plan, first_leg, later_leg, record_observations, tick_navigation, ActiveNavigation,
    Movement, NavigationFrame, NextStep, PlanVerdict,
};
use azalea_pathfinder::{
    AdaptivePathfinderRuntime, AdaptivePathfinderSettings, BlockKind, BlockPos, FollowerFrame,
    FollowerSettings, InterruptionReason, MoveKind, NavigationGoal, NavigationRequest,
    NavigationStatus, PathFollower, PathfinderSettings, ProfileKey, WorldSnapshot, WorldView,
};

/// A point in the world.
#[derive(Clone, Copy, Debug)]
struct Point {
    x: f64,
    y: f64,
    z: f64,
}

fn point(x: f64, y: f64, z: f64) -> Point {
    Point { x, y, z }
}

fn node_center(pos: BlockPos) -> Point {
    point(f64::from(pos.x) + 0.5, f64::from(pos.y), f64::from(pos.z) + 0.5)
}

fn block_of(at: Point) -> BlockPos {
    BlockPos::new(at.x.floor() as i32, at.y.floor() as i32, at.z.floor() as i32)
}

fn dist_xz(a: Point, b: Point) -> f64 {
    ((a.x - b.x).powi(2) + (a.z - b.z).powi(2)).sqrt()
}

fn float(bits: Real64) -> f64 {
    f64::from_bits(bits.0)
}

/// The columns under a straight walk.
fn line_samples(from: Point, to: Point, settings: &FollowerSettings) -> Vec<LineSample> {
    let (dx, dz) = (to.x - from.x, to.z - from.z);
    let distance = (dx * dx + dz * dz).sqrt();
    if distance < 1e-6 {
        return Vec::new();
    }
    let (perp_x, perp_z) = (-dz / distance, dx / distance);
    let side = float(settings.body_half_width).max(0.0);
    let samples = (distance / float(settings.line_sample_spacing).max(0.05))
        .ceil()
        .max(1.0) as i32;
    (1..=samples)
        .map(|i| {
            let t = f64::from(i) / f64::from(samples);
            let (cx, cz) = (from.x + dx * t, from.z + dz * t);
            LineSample {
                center_x: cx.floor() as i32,
                center_z: cz.floor() as i32,
                left_x: (cx + perp_x * side).floor() as i32,
                left_z: (cz + perp_z * side).floor() as i32,
                right_x: (cx - perp_x * side).floor() as i32,
                right_z: (cz - perp_z * side).floor() as i32,
            }
        })
        .collect()
}

/// The lowest height that passes a test, looking upward from below.
fn lowest_height(around: f64, passes: impl Fn(f64) -> bool) -> i64 {
    let mut height = around.floor() as i64 - 8;
    while !passes(height as f64) {
        height += 1;
    }
    height
}

/// What a body at `position` measures of the path it follows.
fn sense(
    follower: &PathFollower,
    position: Point,
    on_ground: bool,
    horizontal_collision: bool,
    paused: bool,
) -> FollowerFrame {
    let settings = follower.settings;
    let nodes = &follower.path().nodes;
    let mut at = follower.current_node_index();
    let mut left_behind = Vec::new();
    while at + 1 < nodes.len() {
        let current = node_center(nodes[at].pos);
        let next = node_center(nodes[at + 1].pos);
        let away = dist_xz(position, current);
        let close = away < float(settings.node_radius_xz).max(0.0)
            && (position.y - current.y).abs() < float(settings.node_y_tolerance).max(0.0);
        let past = away < float(settings.passed_node_radius_xz).max(0.0)
            && (position.x - current.x) * (next.x - current.x)
                + (position.z - current.z) * (next.z - current.z)
                > 0.0;
        left_behind.push(close || past);
        if !(close || past) {
            break;
        }
        at += 1;
    }
    let end = node_center(nodes[nodes.len() - 1].pos);
    let (dxz, dy) = (dist_xz(position, end), (position.y - end.y).abs());
    let arrived = (dxz < float(settings.arrival_radius_xz).max(0.0)
        && dy < float(settings.arrival_y_tolerance).max(0.0))
        || (dxz < float(settings.close_enough_xz).max(0.0)
            && dy < float(settings.close_enough_y).max(0.0));
    let immediate = node_center(nodes[at].pos);
    let (dx, dy, dz) = (
        immediate.x - position.x,
        immediate.y - position.y,
        immediate.z - position.z,
    );
    let distance = (dx * dx + dy * dy + dz * dz).sqrt();
    let samples = (distance / float(settings.line_sample_spacing).max(0.05))
        .ceil()
        .max(1.0) as i32;
    let way = (1..=samples)
        .map(|i| {
            let t = f64::from(i) / f64::from(samples);
            block_of(point(
                position.x + dx * t,
                position.y + dy * t,
                position.z + dz * t,
            ))
        })
        .collect();
    let last = (at + settings.max_los_skip).min(nodes.len() - 1);
    let lines = nodes[(at + 1).min(last + 1)..=last]
        .iter()
        .map(|node| line_samples(position, node_center(node.pos), &settings))
        .collect();
    let launch = node_center(nodes[at.saturating_sub(1)].pos);
    let own = node_center(block_of(position));
    let at_edge =
        |target: Point| dist_xz(position, target) <= dist_xz(launch, target) - 0.35;
    let rise = float(settings.jump_height_threshold).max(0.0);
    FollowerFrame {
        feet: block_of(position),
        on_ground,
        horizontal_collision,
        paused,
        left_behind,
        arrived,
        fallen_from: lowest_height(position.y, |height| height - position.y > 2.5),
        rising_from: lowest_height(position.y, |height| height > position.y + 0.1),
        sinking_to: lowest_height(position.y, |height| height >= position.y - 0.1) - 1,
        stepping_from: lowest_height(position.y, |height| height - position.y > rise),
        way,
        lines,
        in_step_range: dist_xz(position, immediate) < 1.6,
        past_edge: at_edge(immediate),
        past_edge_squared_up: at_edge(point(own.x, immediate.y, own.z)),
        off_centre: dist_xz(position, own) > 0.15,
    }
}

/// A floor at one height, with a hole from `hole` on.
struct Floor {
    hole: i32,
}

impl WorldView for Floor {
    fn block(&self, pos: BlockPos) -> BlockKind {
        if pos.y < 64 && pos.x < self.hole {
            BlockKind::Solid
        } else {
            BlockKind::Air
        }
    }

    fn standable(&self, pos: BlockPos) -> bool {
        standable_by_blocks(self, pos)
    }
}

fn settings() -> PathfinderSettings {
    let mut settings = PathfinderSettings {
        snapshot_margin: 6,
        ..PathfinderSettings::default()
    };
    settings.planner.time_budget_ms = 600_000;
    settings
}

fn request(goal: NavigationGoal) -> NavigationRequest {
    NavigationRequest {
        goal,
        path_seed: 5,
        generation: 9,
    }
}

fn plan(world: &Floor, request: NavigationRequest, settings: &PathfinderSettings) -> PlanResult {
    let start = BlockPos::new(0, 64, 0);
    let (lo, hi) = snapshot_bounds(start, request.goal.position(), settings);
    plan_leg(
        request,
        start,
        &WorldSnapshot::try_capture(world, lo, hi),
        0,
        settings,
        &first_leg(77, 19, None),
    )
}

fn follow(
    world: &Floor,
    request: NavigationRequest,
    settings: &PathfinderSettings,
) -> ActiveNavigation {
    match conclude_plan(&request, plan(world, request, settings), world, true, settings) {
        PlanVerdict::Follow(active) => active,
        _ => panic!("the plan is not followed"),
    }
}

fn frame(
    active: &ActiveNavigation,
    settings: &PathfinderSettings,
    position: Point,
    paused: bool,
) -> NavigationFrame {
    let shadow = PathFollower {
        idx: active.follower.current_node_index(),
        ..PathFollower::new(active.follower.path().clone(), settings.follower, 0)
    };
    NavigationFrame {
        fall_limit: survivable_fall_limit(16),
        can_sprint: true,
        body: sense(&shadow, position, true, false, paused),
    }
}

#[test]
fn a_leg_reaches_a_goal_it_had_to_snap() {
    let world = Floor { hole: 1_000 };
    let settings = settings();
    let asked = request(NavigationGoal::Fixed(BlockPos::new(8, 68, 0)));
    let result = plan(&world, asked, &settings);
    assert_eq!(result.target, BlockPos::new(8, 64, 0));
    assert!(result.reached_goal);
    assert_eq!((result.journey_id, result.legs), (77, 1));
    let path = result.plan.unwrap().into_path();
    assert_eq!(path.nodes[0].pos, BlockPos::new(0, 64, 0));
    assert_eq!(path.nodes[0].reached_by, MoveKind::Start);
}

#[test]
fn nothing_is_planned_once_the_budget_is_spent() {
    let world = Floor { hole: 1_000 };
    let settings = settings();
    let asked = request(NavigationGoal::Fixed(BlockPos::new(8, 64, 0)));
    let start = BlockPos::new(0, 64, 0);
    let (lo, hi) = snapshot_bounds(start, asked.goal.position(), &settings);
    let captured = WorldSnapshot::try_capture(&world, lo, hi);
    let leg = first_leg(1, 19, None);
    let late = plan_leg(asked, start, &captured, 600_000_000_000, &settings, &leg);
    assert!(late.plan.is_none() && !late.reached_goal);
    let huge = WorldSnapshot::try_capture(
        &world,
        BlockPos::new(0, 0, 0),
        BlockPos::new(1_000, 1_000, 1_000),
    );
    assert!(plan_leg(asked, start, &huge, 0, &settings, &leg).plan.is_none());
}

#[test]
fn every_leg_has_its_own_seed_and_fall_limit() {
    let settings = settings();
    let asked = request(NavigationGoal::Fixed(BlockPos::new(8, 64, 0)));
    let first = leg_context(&settings, &asked, &first_leg(1, 4, None), 100);
    assert_eq!(first.path_seed, 5_u64.wrapping_add(LEG_SEED_STEP));
    assert_eq!(first.max_fall, 4);
    assert_eq!(first.time_budget_ms, 100);
    let mut memory = AvoidMemory::default();
    memory.blame(BlockPos::new(3, 64, 0));
    let later = later_leg(1, 2, 0, Some(&memory), 99, None);
    let second = leg_context(&settings, &asked, &later, 100);
    assert_eq!(
        second.path_seed,
        5_u64.wrapping_add(LEG_SEED_STEP.wrapping_mul(2))
    );
    assert_eq!(second.max_fall, settings.planner.max_fall);
    assert_eq!(second.avoid.get(BlockPos::new(3, 64, 0)), Some(&800));
}

#[test]
fn stale_plans_are_ignored_and_dead_ends_retried() {
    let settings = settings();
    let world = Floor { hole: 1 };
    let asked = request(NavigationGoal::Fixed(BlockPos::new(300, 64, 0)));
    let replaced = NavigationRequest {
        generation: 10,
        ..asked
    };
    assert!(matches!(
        conclude_plan(&replaced, plan(&world, asked, &settings), &world, true, &settings),
        PlanVerdict::Ignore
    ));
    let result = plan(&world, asked, &settings);
    assert!(!result.reached_goal);
    let start = result.start;
    match conclude_plan(&asked, result, &world, true, &settings) {
        PlanVerdict::Retry {
            start: again,
            journey_id,
            legs,
            stalled_legs,
        } => assert_eq!((again, journey_id, legs, stalled_legs), (start, 77, 2, 1)),
        _ => panic!("a dead end is retried"),
    }
    let mut spent = plan(&world, asked, &settings);
    spent.stalled_legs = 6;
    assert!(matches!(
        conclude_plan(&asked, spent, &world, true, &settings),
        PlanVerdict::Fail
    ));
    let mut unplanned = plan(&world, asked, &settings);
    unplanned.plan = None;
    assert!(matches!(
        conclude_plan(&asked, unplanned, &world, true, &settings),
        PlanVerdict::Fail
    ));
    let here = request(NavigationGoal::Fixed(BlockPos::new(0, 64, 0)));
    assert!(matches!(
        conclude_plan(&here, plan(&world, here, &settings), &world, true, &settings),
        PlanVerdict::Arrive
    ));
}

#[test]
fn a_followed_leg_walks_pauses_and_arrives() {
    let world = Floor { hole: 1_000 };
    let settings = settings();
    let asked = request(NavigationGoal::Fixed(BlockPos::new(8, 64, 0)));
    let mut active = follow(&world, asked, &settings);
    let mut nonces = NonceAllocator::seeded(1, 1);
    let body = frame(&active, &settings, point(0.5, 64.0, 0.5), false);
    let outcome = tick_navigation(&mut active, &asked, &world, &settings, &body, &mut nonces);
    assert!(matches!(
        outcome.decision.movement,
        Movement::Advance {
            aim: Aim::Node(_),
            ..
        }
    ));
    assert_eq!(
        outcome.decision.next,
        NextStep::Keep(NavigationStatus::Following { generation: 9 })
    );
    assert_eq!(active.checked_fall_limit, survivable_fall_limit(16));
    let body = frame(&active, &settings, point(0.5, 64.0, 0.5), true);
    let outcome = tick_navigation(&mut active, &asked, &world, &settings, &body, &mut nonces);
    assert_eq!(outcome.decision.movement, Movement::Stop);
    assert_eq!(
        outcome.decision.next,
        NextStep::Keep(NavigationStatus::Paused { generation: 9 })
    );
    let body = frame(&active, &settings, point(8.5, 64.0, 0.5), false);
    let outcome = tick_navigation(&mut active, &asked, &world, &settings, &body, &mut nonces);
    assert_eq!(
        outcome.decision.next,
        NextStep::Finish(NavigationStatus::Arrived { generation: 9 })
    );
}

#[test]
fn hunger_walks_and_failures_are_blamed() {
    let world = Floor { hole: 1_000 };
    let mut settings = settings();
    settings.follower.sprint_break_chance_denominator = u64::MAX;
    let asked = request(NavigationGoal::Fixed(BlockPos::new(8, 64, 0)));
    let mut active = follow(&world, asked, &settings);
    let mut nonces = NonceAllocator::seeded(1, 1);
    let mut body = frame(&active, &settings, point(0.5, 64.0, 0.5), false);
    let outcome = tick_navigation(&mut active, &asked, &world, &settings, &body, &mut nonces);
    assert!(matches!(
        outcome.decision.movement,
        Movement::Advance { sprint: true, .. }
    ));
    body = frame(&active, &settings, point(0.5, 64.0, 0.5), false);
    body.can_sprint = false;
    let outcome = tick_navigation(&mut active, &asked, &world, &settings, &body, &mut nonces);
    assert!(matches!(
        outcome.decision.movement,
        Movement::Advance { sprint: false, .. }
    ));
    let fallen = frame(&active, &settings, point(0.5, 50.0, 0.5), false);
    let outcome = tick_navigation(&mut active, &asked, &world, &settings, &fallen, &mut nonces);
    assert_eq!(outcome.decision.blame, Some(BlockPos::new(0, 50, 0)));
    assert_eq!(outcome.decision.next, NextStep::Replan { legs: 2 });
    active.legs = settings.max_plan_legs;
    let fallen = frame(&active, &settings, point(0.5, 50.0, 0.5), false);
    let outcome = tick_navigation(&mut active, &asked, &world, &settings, &fallen, &mut nonces);
    assert_eq!(
        outcome.decision.next,
        NextStep::Finish(NavigationStatus::Failed { generation: 9 })
    );
}

#[test]
fn moving_goals_are_planned_to_again() {
    let world = Floor { hole: 1_000 };
    let mut settings = settings();
    settings.dynamic_replan_ticks = 2;
    let goal = NavigationGoal::Dynamic {
        position: BlockPos::new(8, 64, 0),
        revision: 1,
    };
    let asked = request(goal);
    let mut active = follow(&world, asked, &settings);
    let mut nonces = NonceAllocator::seeded(1, 1);
    for expected in [
        NextStep::Keep(NavigationStatus::Following { generation: 9 }),
        NextStep::Replan { legs: 1 },
    ] {
        let body = frame(&active, &settings, point(0.5, 64.0, 0.5), false);
        let outcome = tick_navigation(&mut active, &asked, &world, &settings, &body, &mut nonces);
        assert_eq!(outcome.decision.next, expected);
    }
    assert_eq!(active.dynamic_ticks, 2);
}

#[test]
fn observed_legs_report_to_the_learner() {
    let world = Floor { hole: 1_000 };
    let settings = settings();
    let asked = request(NavigationGoal::Fixed(BlockPos::new(8, 64, 0)));
    let adaptive = AdaptivePathfinderSettings {
        profile: Some(ProfileKey::local_default()),
        build_id: "journeys".to_owned(),
        ..AdaptivePathfinderSettings::default()
    };
    let mut runtime = AdaptivePathfinderRuntime::default();
    let seed = adaptive_leg_seed(&adaptive, &mut runtime, &settings).unwrap();
    let context = leg_observation_context(&seed, &asked, 77, 1, 3, 4);
    assert_eq!(context.plan_revision, 9_u64.rotate_left(17) + 1);
    assert_eq!((context.created_unix_ms, context.baseline_costs_hash), (4, 3));

    let start = BlockPos::new(0, 64, 0);
    let (lo, hi) = snapshot_bounds(start, asked.goal.position(), &settings);
    let mut result = plan_leg(
        asked,
        start,
        &WorldSnapshot::try_capture(&world, lo, hi),
        0,
        &settings,
        &first_leg(77, 19, Some(seed)),
    );
    result.stamp(123);
    assert_eq!(
        result.observation_context.as_ref().unwrap().created_unix_ms,
        123
    );
    let mut active = match conclude_plan(&asked, result, &world, true, &settings) {
        PlanVerdict::Follow(active) => active,
        _ => panic!("the plan is not followed"),
    };
    let mut nonces = NonceAllocator::seeded(1_000, 1);
    let body = frame(&active, &settings, point(0.2, 64.0, 0.5), false);
    let outcome = tick_navigation(&mut active, &asked, &world, &settings, &body, &mut nonces);
    assert!(outcome.observations.is_empty());
    let taken = active.abandon(InterruptionReason::Cancelled);
    assert_eq!(taken.len(), 1);
    record_observations(&taken, &mut runtime, &adaptive.learner);
    let learned = runtime.profile(&ProfileKey::local_default()).unwrap();
    assert_eq!(learned.data_revision, 1);
    assert!(active.abandon(InterruptionReason::Cancelled).is_empty());
}

#[test]
fn adaptive_settings_are_cloned_with_all_they_hold() {
    let adaptive = AdaptivePathfinderSettings {
        world_revision: 9,
        ..AdaptivePathfinderSettings::default()
    };
    assert_eq!(format!("{:?}", adaptive.clone()), format!("{adaptive:?}"));
}

#[test]
fn snapping_counts_against_the_budget_of_a_leg() {
    let world = Floor { hole: 1_000 };
    let mut settings = settings();
    settings.planner.time_budget_ms = 10;
    let asked = request(NavigationGoal::Fixed(BlockPos::new(8, 68, 0)));
    let start = BlockPos::new(0, 64, 0);
    let (lo, hi) = snapshot_bounds(start, asked.goal.position(), &settings);
    let captured = WorldSnapshot::try_capture(&world, lo, hi);
    let leg = first_leg(1, 19, None);
    let plan = |spent: u128, shown: u128| {
        let mut clock = StoppedClock::new(shown);
        plan_leg_on(asked, start, &captured, spent, &settings, &leg, &mut clock)
    };
    assert!(plan(0, 0).reached_goal);
    assert!(plan(4_000_000, 1_000_000).reached_goal);
    // Nothing is left once the goal was moved.
    let late = plan(4_000_000, 6_000_000);
    assert_eq!(late.target, BlockPos::new(8, 64, 0));
    assert!(late.plan.is_none() && !late.reached_goal);
    // Four milliseconds are left, and the search starts late.
    let hurried = plan(2_000_000, 4_000_000);
    assert!(!hurried.reached_goal);
    assert_eq!(hurried.plan.unwrap().path().nodes.len(), 1);
    // The goal is not even moved once capturing has used up all.
    assert_eq!(plan(10_000_000, 0).target, BlockPos::new(8, 68, 0));
}
