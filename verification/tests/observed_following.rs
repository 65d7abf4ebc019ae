use std::collections::HashMap;

use azalea_pathfinder::adaptive::NonceAllocator;
use azalea_pathfinder::adaptive_follower::interruption_evidence;
use azalea_pathfinder::local::follower::Aim;
use azalea_pathfinder::local::line::LineSample;
use azalea_pathfinder::local::settings::Real64;
use azalea_pathfinder::local::world::standable_by_blocks;
use azalea_pathfinder::{
    movement_costs_hash, observed_follower_settings, AttributionEvidence, BlockKind, BlockPos,
    FollowerDirective, FollowerFrame, FollowerSettings, InterruptionReason, MotionPlan,
    MoveContext, MoveKind, MovementCosts, ObservationContext, ObservationOutcome,
    ObservedPathFollower, Path, PathFollower, PathNode, ProfileKey, WorldView,
};

/// A point in the world.
#[derive(Clone, Copy, Debug)]
struct Point {
    x: f64,
    y: f64,
    z: f64,
}

fn point(x: f64, y: f64, z: f64) -> Point {
    Point { x, y, z }
}

fn node_center(pos: BlockPos) -> Point {
    point(f64::from(pos.x) + 0.5, f64::from(pos.y), f64::from(pos.z) + 0.5)
}

fn block_of(at: Point) -> BlockPos {
    BlockPos::new(at.x.floor() as i32, at.y.floor() as i32, at.z.floor() as i32)
}

fn dist_xz(a: Point, b: Point) -> f64 {
    ((a.x - b.x).powi(2) + (a.z - b.z).powi(2)).sqrt()
}

fn float(bits: Real64) -> f64 {
    f64::from_bits(bits.0)
}

/// The columns under a straight walk.
fn line_samples(from: Point, to: Point, settings: &FollowerSettings) -> Vec<LineSample> {
    let (dx, dz) = (to.x - from.x, to.z - from.z);
    let distance = (dx * dx + dz * dz).sqrt();
    if distance < 1e-6 {
        return Vec::new();
    }
    let (perp_x, perp_z) = (-dz / distance, dx / distance);
    let side = float(settings.body_half_width).max(0.0);
    let samples = (distance / float(settings.line_sample_spacing).max(0.05))
        .ceil()
        .max(1.0) as i32;
    (1..=samples)
        .map(|i| {
            let t = f64::from(i) / f64::from(samples);
            let (cx, cz) = (from.x + dx * t, from.z + dz * t);
            LineSample {
                center_x: cx.floor() as i32,
                center_z: cz.floor() as i32,
                left_x: (cx + perp_x * side).floor() as i32,
                left_z: (cz + perp_z * side).floor() as i32,
                right_x: (cx - perp_x * side).floor() as i32,
                right_z: (cz - perp_z * side).floor() as i32,
            }
        })
        .collect()
}

/// The lowest height that passes a test, looking upward from below.
fn lowest_height(around: f64, passes: impl Fn(f64) -> bool) -> i64 {
    let mut height = around.floor() as i64 - 8;
    while !passes(height as f64) {
        height += 1;
    }
    height
}

/// What a body at `position` measures of the path it follows.
fn sense(
    follower: &PathFollower,
    position: Point,
    on_ground: bool,
    horizontal_collision: bool,
    paused: bool,
) -> FollowerFrame {
    let settings = follower.settings;
    let nodes = &follower.path().nodes;
    let mut at = follower.current_node_index();
    let mut left_behind = Vec::new();
    while at + 1 < nodes.len() {
        let current = node_center(nodes[at].pos);
        let next = node_center(nodes[at + 1].pos);
        let away = dist_xz(position, current);
        let close = away < float(settings.node_radius_xz).max(0.0)
            && (position.y - current.y).abs() < float(settings.node_y_tolerance).max(0.0);
        let past = away < float(settings.passed_node_radius_xz).max(0.0)
            && (position.x - current.x) * (next.x - current.x)
                + (position.z - current.z) * (next.z - current.z)
                > 0.0;
        left_behind.push(close || past);
        if !(close || past) {
            break;
        }
        at += 1;
    }
    let end = node_center(nodes[nodes.len() - 1].pos);
    let (dxz, dy) = (dist_xz(position, end), (position.y - end.y).abs());
    let arrived = (dxz < float(settings.arrival_radius_xz).max(0.0)
        && dy < float(settings.arrival_y_tolerance).max(0.0))
        || (dxz < float(settings.close_enough_xz).max(0.0)
            && dy < float(settings.close_enough_y).max(0.0));
    let immediate = node_center(nodes[at].pos);
    let (dx, dy, dz) = (
        immediate.x - position.x,
        immediate.y - position.y,
        immediate.z - position.z,
    );
    let distance = (dx * dx + dy * dy + dz * dz).sqrt();
    let samples = (distance / float(settings.line_sample_spacing).max(0.05))
        .ceil()
        .max(1.0) as i32;
    let way = (1..=samples)
        .map(|i| {
            let t = f64::from(i) / f64::from(samples);
            block_of(point(
                position.x + dx * t,
                position.y + dy * t,
                position.z + dz * t,
            ))
        })
        .collect();
    let last = (at + settings.max_los_skip).min(nodes.len() - 1);
    let lines = nodes[(at + 1).min(last + 1)..=last]
        .iter()
        .map(|node| line_samples(position, node_center(node.pos), &settings))
        .collect();
    let launch = node_center(nodes[at.saturating_sub(1)].pos);
    let own = node_center(block_of(position));
    let at_edge =
        |target: Point| dist_xz(position, target) <= dist_xz(launch, target) - 0.35;
    let rise = float(settings.jump_height_threshold).max(0.0);
    FollowerFrame {
        feet: block_of(position),
        on_ground,
        horizontal_collision,
        paused,
        left_behind,
        arrived,
        fallen_from: lowest_height(position.y, |height| height - position.y > 2.5),
        rising_from: lowest_height(position.y, |height| height > position.y + 0.1),
        sinking_to: lowest_height(position.y, |height| height >= position.y - 0.1) - 1,
        stepping_from: lowest_height(position.y, |height| height - position.y > rise),
        way,
        lines,
        in_step_range: dist_xz(position, immediate) < 1.6,
        past_edge: at_edge(immediate),
        past_edge_squared_up: at_edge(point(own.x, immediate.y, own.z)),
        off_centre: dist_xz(position, own) > 0.15,
    }
}

struct Grid(HashMap<(i32, i32, i32), BlockKind>);

impl WorldView for Grid {
    fn block(&self, position: BlockPos) -> BlockKind {
        self.0
            .get(&(position.x, position.y, position.z))
            .copied()
            .unwrap_or(BlockKind::Air)
    }

    fn standable(&self, pos: BlockPos) -> bool {
        standable_by_blocks(self, pos)
    }
}

fn context() -> ObservationContext {
    let profile = ProfileKey::local_default();
    ObservationContext {
        actor_capability_hash: profile.capability_hash,
        profile,
        journey_id: 1,
        generation: 2,
        leg: 1,
        plan_revision: 1,
        world_revision: 1,
        model_revision: 0,
        planner_settings_hash: 3,
        control_settings_hash: 4,
        baseline_costs_hash: movement_costs_hash(MovementCosts::default()),
        build_id: "test".into(),
        created_unix_ms: 0,
    }
}

fn plan(world: &Grid) -> MotionPlan {
    MotionPlan::try_from_path(
        Path {
            nodes: vec![
                PathNode {
                    pos: BlockPos::new(0, 64, 0),
                    reached_by: MoveKind::Start,
                },
                PathNode {
                    pos: BlockPos::new(1, 64, 0),
                    reached_by: MoveKind::Walk,
                },
            ],
            total_cost: 10,
        },
        world,
        &MoveContext::default(),
    )
    .unwrap()
}

/// A follower with its own nonces.
struct Walker {
    observed: ObservedPathFollower,
    nonces: NonceAllocator,
}

impl Walker {
    fn new(plan: MotionPlan) -> Self {
        Self {
            observed: ObservedPathFollower::new(plan, settings(), 0, context()),
            nonces: NonceAllocator::seeded(1_000, 3),
        }
    }

    fn tick(&mut self, world: &Grid, x: f64, paused: bool) -> FollowerDirective {
        let frame = sense(
            &self.observed.follower,
            point(x, 64.0, 0.5),
            true,
            false,
            paused,
        );
        self.observed.tick(world, &frame, &mut self.nonces)
    }
}

fn settings() -> FollowerSettings {
    FollowerSettings {
        arrival_radius_xz: Real64(0.2_f64.to_bits()),
        close_enough_xz: Real64(0.2_f64.to_bits()),
        ..FollowerSettings::default()
    }
}

#[test]
fn final_arrival_emits_one_success() {
    let world = Grid(HashMap::new());
    let mut follower = Walker::new(plan(&world));
    assert_eq!(
        follower.tick(&world, 1.5, false),
        FollowerDirective::Arrived
    );
    assert_eq!(
        follower.tick(&world, 1.5, false),
        FollowerDirective::Arrived
    );
    let observations = follower.observed.drain_observations();
    assert_eq!(observations.len(), 1);
    assert_eq!(observations[0].outcome, ObservationOutcome::Success);
    assert_eq!(observations[0].actual_ticks(), 1);
}

#[test]
fn pause_does_not_finish_or_consume_attempt_time() {
    let world = Grid(HashMap::new());
    let mut follower = Walker::new(plan(&world));
    assert!(matches!(
        follower.tick(&world, 0.5, false),
        FollowerDirective::Move { .. }
    ));
    assert_eq!(
        follower.tick(&world, 0.5, true),
        FollowerDirective::Paused
    );
    assert_eq!(follower.observed.drain_observations().len(), 0);
    follower.tick(&world, 1.5, false);
    let observation = follower.observed.drain_observations().remove(0);
    assert_eq!(observation.actual_ticks(), 2);
}

#[test]
fn cancellation_finishes_once_without_failure_attribution() {
    let world = Grid(HashMap::new());
    let mut follower = Walker::new(plan(&world));
    follower.tick(&world, 0.5, false);
    follower.observed.interrupt(InterruptionReason::Cancelled);
    follower.observed.interrupt(InterruptionReason::Cancelled);
    assert_eq!(
        follower.tick(&world, 0.5, false),
        FollowerDirective::Paused
    );
    assert_eq!(
        follower.tick(&world, 1.5, false),
        FollowerDirective::Paused
    );
    let observations = follower.observed.drain_observations();
    assert_eq!(observations.len(), 1);
    assert_eq!(
        observations[0].outcome,
        ObservationOutcome::Interrupted(InterruptionReason::Cancelled)
    );
}

#[test]
fn observed_execution_pins_a_corner_to_the_immediate_node() {
    let world = Grid(
        [
            ((0, 63, 0), BlockKind::Solid),
            ((1, 63, 0), BlockKind::Solid),
            ((1, 63, 1), BlockKind::Solid),
        ]
        .into_iter()
        .collect(),
    );
    let path = Path {
        nodes: vec![
            PathNode {
                pos: BlockPos::new(0, 64, 0),
                reached_by: MoveKind::Start,
            },
            PathNode {
                pos: BlockPos::new(1, 64, 0),
                reached_by: MoveKind::Walk,
            },
            PathNode {
                pos: BlockPos::new(1, 64, 1),
                reached_by: MoveKind::Walk,
            },
        ],
        total_cost: 20,
    };
    let plan = MotionPlan::try_from_path(path, &world, &MoveContext::default()).unwrap();
    let mut follower = Walker::new(plan);
    let FollowerDirective::Move { aim, .. } = follower.tick(&world, 0.5, false) else {
        panic!("expected observed follower to move");
    };
    assert_eq!(aim, Aim::Node(1));
    let target = node_center(follower.observed.path().nodes[1].pos);
    assert_eq!((target.x, target.y, target.z), (1.5, 64.0, 0.5));
}

#[test]
fn unmodelled_execution_disables_the_remainder_of_the_leg() {
    let world = Grid(HashMap::new());
    let mut follower = Walker::new(plan(&world));
    assert!(matches!(
        follower.tick(&world, 0.5, false),
        FollowerDirective::Move { .. }
    ));
    follower.observed.disable_observations(InterruptionReason::Unknown);
    follower.observed.disable_observations(InterruptionReason::Unknown);
    assert_eq!(
        follower.tick(&world, 1.5, false),
        FollowerDirective::Arrived
    );
    let observations = follower.observed.drain_observations();
    assert_eq!(observations.len(), 1);
    assert_eq!(
        observations[0].outcome,
        ObservationOutcome::Interrupted(InterruptionReason::Unknown)
    );
}

#[test]
fn reasons_have_the_evidence_that_explains_them() {
    for reason in [
        InterruptionReason::Pause,
        InterruptionReason::Cancelled,
        InterruptionReason::GoalChanged,
    ] {
        assert_eq!(
            interruption_evidence(reason),
            AttributionEvidence::PauseOrCancellation
        );
    }
    for reason in [
        InterruptionReason::WorldChanged,
        InterruptionReason::ExternalImpulse,
        InterruptionReason::ServerCorrection,
        InterruptionReason::Unknown,
    ] {
        assert_eq!(
            interruption_evidence(reason),
            AttributionEvidence::ExternalMovementEvent
        );
    }
}

#[test]
fn observed_followers_do_not_smooth() {
    let observed = observed_follower_settings(FollowerSettings::default());
    assert_eq!(observed.max_los_skip, 0);
    assert_eq!(
        FollowerSettings {
            max_los_skip: FollowerSettings::default().max_los_skip,
            ..observed
        },
        FollowerSettings::default()
    );
}

/// Four blocks in a row.
fn long_plan(world: &Grid) -> MotionPlan {
    let nodes = (0..4)
        .map(|x| PathNode {
            pos: BlockPos::new(x, 64, 0),
            reached_by: if x == 0 {
                MoveKind::Start
            } else {
                MoveKind::Walk
            },
        })
        .collect();
    MotionPlan::try_from_path(
        Path {
            nodes,
            total_cost: 30,
        },
        world,
        &MoveContext::default(),
    )
    .unwrap()
}

#[test]
fn each_reached_node_is_one_success_and_a_skip_is_none() {
    let world = Grid((-1..=4).map(|x| ((x, 63, 0), BlockKind::Solid)).collect());
    let mut walker = Walker::new(long_plan(&world));
    walker.tick(&world, 0.4, false);
    walker.tick(&world, 1.0, false);
    let observations = walker.observed.drain_observations();
    assert_eq!(observations.len(), 1);
    assert_eq!(observations[0].outcome, ObservationOutcome::Success);
    assert_eq!(observations[0].to, [1, 64, 0]);
    assert_eq!(observations[0].completion_sequence, 1);

    let mut skipping = Walker::new(long_plan(&world));
    skipping.tick(&world, 0.4, false);
    skipping.tick(&world, 2.4, false);
    let observations = skipping.observed.drain_observations();
    assert_eq!(observations.len(), 1);
    assert_eq!(
        observations[0].outcome,
        ObservationOutcome::Interrupted(InterruptionReason::Unknown)
    );
}

#[test]
fn falling_off_is_blamed_on_the_edge_under_way() {
    let world = Grid((-1..=4).map(|x| ((x, 63, 0), BlockKind::Solid)).collect());
    let mut walker = Walker::new(long_plan(&world));
    walker.tick(&world, -0.6, false);
    let frame = sense(
        &walker.observed.follower,
        point(-0.6, 58.0, 0.5),
        true,
        false,
        false,
    );
    let directive = walker.observed.tick(&world, &frame, &mut walker.nonces);
    assert!(matches!(directive, FollowerDirective::Stuck { .. }));
    let observations = walker.observed.drain_observations();
    assert_eq!(observations.len(), 1);
    assert_eq!(observations[0].outcome, ObservationOutcome::FellOff);
    assert_eq!(observations[0].evidence, AttributionEvidence::FellBelowPath);
    assert_eq!(walker.tick(&world, 0.5, false), directive, "the end is latched");
}

#[test]
fn an_observed_follower_begins_as_a_plain_one() {
    let grid = Grid(HashMap::new());
    let route = plan(&grid);
    let plain = PathFollower::new(
        route.path().clone(),
        observed_follower_settings(settings()),
        7,
    );
    let observed = ObservedPathFollower::new(route.clone(), settings(), 7, context());
    assert_eq!(format!("{:?}", observed.follower), format!("{plain:?}"));
    assert_eq!(format!("{:?}", plain.clone()), format!("{plain:?}"));
    let other_seed = ObservedPathFollower::new(route, settings(), 8, context());
    assert_ne!(format!("{:?}", other_seed.follower), format!("{plain:?}"));
}
