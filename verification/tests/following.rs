use std::collections::HashMap;

use azalea_pathfinder::local::follower::{Aim, ESCAPE_TICKS, MAX_ESCAPES};
use azalea_pathfinder::local::line::LineSample;
use azalea_pathfinder::local::settings::Real64;
use azalea_pathfinder::local::world::standable_by_blocks;
use azalea_pathfinder::{
    line_walkable, BlockKind, BlockPos, FollowerDirective, FollowerFailure, FollowerFrame,
    FollowerProgress, FollowerSettings, MoveKind, Path, PathFollower, PathNode, WorldView,
};

/// A point in the world.
#[derive(Clone, Copy, Debug)]
struct Point {
    x: f64,
    y: f64,
    z: f64,
}

fn point(x: f64, y: f64, z: f64) -> Point {
    Point { x, y, z }
}

fn node_center(pos: BlockPos) -> Point {
    point(f64::from(pos.x) + 0.5, f64::from(pos.y), f64::from(pos.z) + 0.5)
}

fn block_of(at: Point) -> BlockPos {
    BlockPos::new(at.x.floor() as i32, at.y.floor() as i32, at.z.floor() as i32)
}

fn dist_xz(a: Point, b: Point) -> f64 {
    ((a.x - b.x).powi(2) + (a.z - b.z).powi(2)).sqrt()
}

fn float(bits: Real64) -> f64 {
    f64::from_bits(bits.0)
}

/// The columns under a straight walk.
fn line_samples(from: Point, to: Point, settings: &FollowerSettings) -> Vec<LineSample> {
    let (dx, dz) = (to.x - from.x, to.z - from.z);
    let distance = (dx * dx + dz * dz).sqrt();
    if distance < 1e-6 {
        return Vec::new();
    }
    let (perp_x, perp_z) = (-dz / distance, dx / distance);
    let side = float(settings.body_half_width).max(0.0);
    let samples = (distance / float(settings.line_sample_spacing).max(0.05))
        .ceil()
        .max(1.0) as i32;
    (1..=samples)
        .map(|i| {
            let t = f64::from(i) / f64::from(samples);
            let (cx, cz) = (from.x + dx * t, from.z + dz * t);
            LineSample {
                center_x: cx.floor() as i32,
                center_z: cz.floor() as i32,
                left_x: (cx + perp_x * side).floor() as i32,
                left_z: (cz + perp_z * side).floor() as i32,
                right_x: (cx - perp_x * side).floor() as i32,
                right_z: (cz - perp_z * side).floor() as i32,
            }
        })
        .collect()
}

/// The lowest height that passes a test, looking upward from below.
fn lowest_height(around: f64, passes: impl Fn(f64) -> bool) -> i64 {
    let mut height = around.floor() as i64 - 8;
    while !passes(height as f64) {
        height += 1;
    }
    height
}

/// What a body at `position` measures of the path it follows.
fn sense(
    follower: &PathFollower,
    position: Point,
    on_ground: bool,
    horizontal_collision: bool,
    paused: bool,
) -> FollowerFrame {
    let settings = follower.settings;
    let nodes = &follower.path().nodes;
    let mut at = follower.current_node_index();
    let mut left_behind = Vec::new();
    while at + 1 < nodes.len() {
        let current = node_center(nodes[at].pos);
        let next = node_center(nodes[at + 1].pos);
        let away = dist_xz(position, current);
        let close = away < float(settings.node_radius_xz).max(0.0)
            && (position.y - current.y).abs() < float(settings.node_y_tolerance).max(0.0);
        let past = away < float(settings.passed_node_radius_xz).max(0.0)
            && (position.x - current.x) * (next.x - current.x)
                + (position.z - current.z) * (next.z - current.z)
                > 0.0;
        left_behind.push(close || past);
        if !(close || past) {
            break;
        }
        at += 1;
    }
    let end = node_center(nodes[nodes.len() - 1].pos);
    let (dxz, dy) = (dist_xz(position, end), (position.y - end.y).abs());
    let arrived = (dxz < float(settings.arrival_radius_xz).max(0.0)
        && dy < float(settings.arrival_y_tolerance).max(0.0))
        || (dxz < float(settings.close_enough_xz).max(0.0)
            && dy < float(settings.close_enough_y).max(0.0));
    let immediate = node_center(nodes[at].pos);
    let (dx, dy, dz) = (
        immediate.x - position.x,
        immediate.y - position.y,
        immediate.z - position.z,
    );
    let distance = (dx * dx + dy * dy + dz * dz).sqrt();
    let samples = (distance / float(settings.line_sample_spacing).max(0.05))
        .ceil()
        .max(1.0) as i32;
    let way = (1..=samples)
        .map(|i| {
            let t = f64::from(i) / f64::from(samples);
            block_of(point(
                position.x + dx * t,
                position.y + dy * t,
                position.z + dz * t,
            ))
        })
        .collect();
    let last = (at + settings.max_los_skip).min(nodes.len() - 1);
    let lines = nodes[(at + 1).min(last + 1)..=last]
        .iter()
        .map(|node| line_samples(position, node_center(node.pos), &settings))
        .collect();
    let launch = node_center(nodes[at.saturating_sub(1)].pos);
    let own = node_center(block_of(position));
    let at_edge =
        |target: Point| dist_xz(position, target) <= dist_xz(launch, target) - 0.35;
    let rise = float(settings.jump_height_threshold).max(0.0);
    FollowerFrame {
        feet: block_of(position),
        on_ground,
        horizontal_collision,
        paused,
        left_behind,
        arrived,
        fallen_from: lowest_height(position.y, |height| height - position.y > 2.5),
        rising_from: lowest_height(position.y, |height| height > position.y + 0.1),
        sinking_to: lowest_height(position.y, |height| height >= position.y - 0.1) - 1,
        stepping_from: lowest_height(position.y, |height| height - position.y > rise),
        way,
        lines,
        in_step_range: dist_xz(position, immediate) < 1.6,
        past_edge: at_edge(immediate),
        past_edge_squared_up: at_edge(point(own.x, immediate.y, own.z)),
        off_centre: dist_xz(position, own) > 0.15,
    }
}

fn tick(
    follower: &mut PathFollower,
    world: &Grid,
    position: Point,
    on_ground: bool,
    horizontal_collision: bool,
    paused: bool,
) -> FollowerDirective {
    let frame = sense(follower, position, on_ground, horizontal_collision, paused);
    follower.tick(world, &frame)
}

/// Whether a straight walk is clear.
fn clear_walk(world: &Grid, from: Point, to: Point, feet_y: i32) -> bool {
    let settings = FollowerSettings::default();
    line_walkable(
        world,
        &line_samples(from, to, &settings),
        feet_y,
        settings.lava_policy,
    )
}

/// Where an aim points along `x`.
fn aim_x(aim: Aim, follower: &PathFollower, position: Point) -> f64 {
    match aim {
        Aim::Node(index) => node_center(follower.path().nodes[index].pos).x,
        Aim::OwnBlock { .. } => node_center(block_of(position)).x,
        Aim::Wall { wall, .. } => f64::from(wall.x) + 0.5,
        Aim::Retreat { .. } => position.x,
    }
}

struct Grid(HashMap<(i32, i32, i32), BlockKind>);
impl WorldView for Grid {
    fn block(&self, pos: BlockPos) -> BlockKind {
        self.0
            .get(&(pos.x, pos.y, pos.z))
            .copied()
            .unwrap_or(BlockKind::Air)
    }

    fn standable(&self, pos: BlockPos) -> bool {
        standable_by_blocks(self, pos)
    }
}
fn floor() -> Grid {
    Grid((-2..=8).map(|x| ((x, 63, 0), BlockKind::Solid)).collect())
}
fn path() -> Path {
    Path {
        nodes: (0..=4)
            .map(|x| PathNode {
                pos: BlockPos::new(x, 64, 0),
                reached_by: if x == 0 {
                    MoveKind::Start
                } else {
                    MoveKind::Walk
                },
            })
            .collect(),
        total_cost: 40,
    }
}

#[test]
fn follower_arrives_and_pauses_without_stalling() {
    let world = floor();
    let mut follower = PathFollower::new(path(), FollowerSettings::default(), 7);
    assert_eq!(
        tick(&mut follower, &world, point(0.5, 64.0, 0.5), true, false, true),
        FollowerDirective::Paused
    );
    assert_eq!(
        tick(&mut follower, &world, point(4.5, 64.0, 0.5), true, false, false),
        FollowerDirective::Arrived
    );
}

/// Scraping a wall on level ground is not a reason to jump.
///
/// The jump rules used to ask whether the *smoothed steering target* was
/// above the feet, and smoothing aims up to twelve nodes ahead at a node
/// allowed to differ in height by a block. So a bot walking a flat stretch
/// beside a wall, on a route that climbs later, read a node it had not
/// reached as a step under its feet and hopped on every tick it was in
/// contact. Measured on a village-to-mine round trip: the largest single
/// source of jumps, and in the worst run 91% of all jumps gained no height.
#[test]
fn a_wall_beside_a_level_path_does_not_make_the_bot_hop() {
    // Flat floor the whole way, with a wall along one side to scrape.
    let mut blocks = HashMap::new();
    for x in -2..=14 {
        blocks.insert((x, 63, 0), BlockKind::Solid);
        for h in 0..=1 {
            blocks.insert((x, 64 + h, 1), BlockKind::Solid);
        }
    }
    // The route is level underfoot but ends a block higher, which is what
    // the smoothed target used to pick up.
    let mut nodes: Vec<PathNode> = (0..=9)
        .map(|x| PathNode {
            pos: BlockPos::new(x, 64, 0),
            reached_by: if x == 0 {
                MoveKind::Start
            } else {
                MoveKind::Walk
            },
        })
        .collect();
    nodes.push(PathNode {
        pos: BlockPos::new(10, 65, 0),
        reached_by: MoveKind::Jump,
    });
    blocks.insert((10, 64, 0), BlockKind::Solid);
    let world = Grid(blocks);

    let mut follower = PathFollower::new(
        Path { nodes, total_cost: 100 },
        FollowerSettings::default(),
        11,
    );
    // Standing on the second node, pressed against the wall, far from the
    // step at the far end.
    let directive = tick(&mut follower, &world, point(1.5, 64.0, 0.5), true, true, false);
    match directive {
        FollowerDirective::Move { jump, .. } => {
            assert!(!jump, "hopped while scraping a wall on level ground");
        }
        other => panic!("expected a Move, got {other:?}"),
    }
}

/// But a step directly in front still gets hopped, promptly.
#[test]
fn a_step_in_front_is_still_jumped() {
    let mut blocks = HashMap::new();
    for x in -2..=1 {
        blocks.insert((x, 63, 0), BlockKind::Solid);
    }
    // A raised shelf from x=2 onward, which the plan steps up onto. It runs
    // well past the step so the far end is not close enough to count as
    // arriving, which would end the tick before any jump is decided.
    for x in 2..=10 {
        blocks.insert((x, 64, 0), BlockKind::Solid);
    }
    let world = Grid(blocks);

    let mut nodes = vec![
        PathNode { pos: BlockPos::new(0, 64, 0), reached_by: MoveKind::Start },
        PathNode { pos: BlockPos::new(1, 64, 0), reached_by: MoveKind::Walk },
        PathNode { pos: BlockPos::new(2, 65, 0), reached_by: MoveKind::Jump },
    ];
    nodes.extend((3..=10).map(|x| PathNode {
        pos: BlockPos::new(x, 65, 0),
        reached_by: MoveKind::Walk,
    }));
    let mut follower =
        PathFollower::new(Path { nodes, total_cost: 120 }, FollowerSettings::default(), 3);
    // Walk at the step and watch the whole approach: the follower advances
    // its node index as it closes, so which tick carries the hop is an
    // implementation detail. That one of them does is not.
    let mut jumped = false;
    for step in 0..6 {
        let directive = tick(&mut follower, &world, point(1.2 + 0.15 * f64::from(step), 64.0, 0.5), true, false, false);
        if let FollowerDirective::Move { jump: true, .. } = directive {
            jumped = true;
        }
    }
    assert!(jumped, "never hopped onto a step directly in front");
}

#[test]
fn fractional_terrain_pins_the_steer_to_the_immediate_node() {
    // A straight one-wide run of eight nodes. Over plain ground the follower
    // smooths its steer far down the line and cuts corners; over
    // fractional-height blocks - snow - that diagonal drift is what lifts a
    // grazing corner of the 0.6-wide body onto a taller neighbour and
    // desyncs it against the anticheat. So on that terrain the steer is
    // pinned to the immediate node and the body stays centred on its lane.
    let straight = || Path {
        nodes: (0..=8)
            .map(|x| PathNode {
                pos: BlockPos::new(x, 64, 0),
                reached_by: if x == 0 {
                    MoveKind::Start
                } else {
                    MoveKind::Walk
                },
            })
            .collect(),
        total_cost: 80,
    };
    let here = point(0.5, 64.0, 0.5);

    // Plain ground below, air to walk through: the steer smooths to the far
    // end of the visible run.
    let smooth = Grid((-2..=10).map(|x| ((x, 63, 0), BlockKind::Solid)).collect());
    let mut follower = PathFollower::new(straight(), FollowerSettings::default(), 7);
    let FollowerDirective::Move { aim, .. } =
        tick(&mut follower, &smooth, here, true, false, false)
    else {
        panic!("expected a Move over plain ground");
    };
    assert!(
        aim_x(aim, &follower, here) > 2.0,
        "plain ground should smooth the steer far down the line, got {aim:?}"
    );

    // Snow underfoot (a partial-height block in the feet's own cell): the
    // same run pins the steer to the immediate node's centre.
    let snowy = Grid((-2..=10).map(|x| ((x, 64, 0), BlockKind::Step(4))).collect());
    let mut follower = PathFollower::new(straight(), FollowerSettings::default(), 7);
    let FollowerDirective::Move { aim, .. } =
        tick(&mut follower, &snowy, here, true, false, false)
    else {
        panic!("expected a Move over snow");
    };
    assert!(
        (aim_x(aim, &follower, here) - 1.5).abs() < 1e-9,
        "snow should pin the steer to the immediate node centre, got {aim:?}"
    );
}

#[test]
fn shortcuts_respect_lava_and_body_clearance() {
    let mut world = floor();
    world.0.insert((2, 63, 1), BlockKind::Lava);
    assert!(!clear_walk(
        &world,
        point(0.5, 64.0, 0.5),
        point(4.5, 64.0, 0.5),
        64
    ));

    // A wall at the body's edge still blocks the shortcut.
    world.0.remove(&(2, 63, 1));
    world.0.insert((2, 64, 1), BlockKind::Solid);
    assert!(!clear_walk(
        &world,
        point(0.5, 64.0, 0.8),
        point(4.5, 64.0, 0.8),
        64
    ));

    // A slab at the body's edge does not. Auto-step lifts the body over it
    // without slowing down, and refusing to smooth past one means refusing
    // to smooth anywhere on a map whose floors are slabs.
    world.0.insert((2, 64, 1), BlockKind::Step(8));
    assert!(clear_walk(
        &world,
        point(0.5, 64.0, 0.8),
        point(4.5, 64.0, 0.8),
        64
    ));
}

#[test]
fn shortcuts_step_up_and_down_but_not_over_a_hole() {
    // A one block rise mid-run is still a straight walk.
    let mut world = floor();
    world.0.insert((2, 64, 0), BlockKind::Solid);
    assert!(clear_walk(
        &world,
        point(0.5, 64.0, 0.5),
        point(4.5, 64.0, 0.5),
        64
    ));

    // A hole in the floor is not.
    let mut world = floor();
    world.0.remove(&(2, 63, 0));
    assert!(!clear_walk(
        &world,
        point(0.5, 64.0, 0.5),
        point(4.5, 64.0, 0.5),
        64
    ));
}

#[test]
fn plants_are_walked_through_not_into() {
    let mut world = floor();
    // Grass where the feet go, on a floor that is otherwise fine.
    world.0.insert((2, 64, 0), BlockKind::Passable);
    assert!(world.standable(BlockPos::new(2, 64, 0)));
    assert!(clear_walk(
        &world,
        point(0.5, 64.0, 0.5),
        point(4.5, 64.0, 0.5),
        64
    ));
}

/// Falling off the route has to end the leg, not be followed from below.
///
/// A missed jump on a parkour course leaves the bot on the floor with the
/// next platform still overhead. It used to keep steering at it: aiming at
/// a target in the sky and hopping on the spot, going nowhere but moving
/// enough that the stall detector never fired, so the leg ran until the
/// follow timeout while the bot appeared to be having a fit.
#[test]
fn landing_far_below_the_next_node_ends_the_leg() {
    let mut blocks: HashMap<(i32, i32, i32), BlockKind> = HashMap::new();
    for x in -2..=8 {
        blocks.insert((x, 54, 0), BlockKind::Solid);
    }
    let world = Grid(blocks);

    // A route across platforms at y=64, being followed by a bot that is
    // standing on the floor ten blocks below them.
    let mut follower = PathFollower::new(path(), FollowerSettings::default(), 7);
    let directive = tick(&mut follower, &world, point(0.5, 55.0, 0.5), true, false, false);
    assert!(
        matches!(directive, FollowerDirective::Stuck { .. }),
        "kept following a path ten blocks overhead: {directive:?}"
    );
}

/// The same check must not fire on ordinary climbing.
///
/// Every move gains at most a block, so a bot one step behind a rising path
/// is normal and has to keep walking.
#[test]
fn being_one_step_below_the_next_node_is_normal() {
    let world = floor();
    let mut follower = PathFollower::new(path(), FollowerSettings::default(), 7);
    let directive = tick(&mut follower, &world, point(0.5, 64.0, 0.5), true, false, false);
    assert!(
        matches!(directive, FollowerDirective::Move { .. }),
        "gave up on a path it was actually on: {directive:?}"
    );
}

#[test]
fn a_stalled_follower_backs_out_twice_and_then_gives_up() {
    let world = floor();
    let settings = FollowerSettings {
        stall_ticks: 3,
        sprint_break_chance_denominator: u64::MAX,
        ..FollowerSettings::default()
    };
    let mut follower = PathFollower::new(path(), settings, 7);
    let here = point(-1.5, 64.0, 0.5);
    let mut retreats = 0;
    let mut ticks = 0;
    let end = loop {
        ticks += 1;
        assert!(ticks < 500);
        match tick(&mut follower, &world, here, true, false, false) {
            FollowerDirective::Move {
                aim: Aim::Retreat { .. },
                sprint,
                ..
            } => {
                retreats += 1;
                assert!(!sprint);
            }
            FollowerDirective::Move { .. } => {}
            other => break other,
        }
    };
    assert_eq!(end, FollowerDirective::Stuck { at: block_of(here) });
    assert_eq!(retreats, MAX_ESCAPES * (ESCAPE_TICKS + 1));
    assert_eq!(follower.take_failure(), Some(FollowerFailure::Stalled));
    assert_eq!(follower.take_failure(), None);
}

#[test]
fn a_follower_times_out_on_its_own_clock() {
    let world = floor();
    let settings = FollowerSettings {
        max_follow_ticks: 2,
        ..FollowerSettings::default()
    };
    let mut follower = PathFollower::new(path(), settings, 7);
    follower.resume_after(1);
    let here = point(0.5, 64.0, 0.5);
    assert!(matches!(
        tick(&mut follower, &world, here, true, false, false),
        FollowerDirective::Move { .. }
    ));
    assert_eq!(follower.elapsed_ticks(), 2);
    assert!(matches!(
        tick(&mut follower, &world, here, true, false, false),
        FollowerDirective::Stuck { .. }
    ));
    assert_eq!(follower.take_failure(), Some(FollowerFailure::TimedOut));
}

#[test]
fn passing_nodes_is_reported_once() {
    let world = floor();
    let mut follower = PathFollower::new(path(), FollowerSettings::default(), 7);
    tick(&mut follower, &world, point(1.5, 64.0, 0.5), true, false, false);
    assert_eq!(follower.current_node_index(), 2);
    assert_eq!(
        follower.take_progress(),
        FollowerProgress::Advanced { from: 1, to: 2 }
    );
    assert_eq!(follower.take_progress(), FollowerProgress::Unchanged);
}

#[test]
fn lava_ahead_is_unsafe() {
    let mut world = floor();
    world.0.insert((1, 63, 1), BlockKind::Lava);
    let mut follower = PathFollower::new(path(), FollowerSettings::default(), 7);
    assert_eq!(
        tick(&mut follower, &world, point(-1.5, 64.0, 0.5), true, false, false),
        FollowerDirective::Unsafe {
            at: BlockPos::new(-2, 64, 0),
            next: BlockPos::new(1, 64, 0)
        }
    );
}

#[test]
fn ladders_are_climbed_against_their_wall_and_slid_down() {
    let mut blocks = HashMap::new();
    for y in 60..=70 {
        blocks.insert((0, y, 0), BlockKind::Climbable);
        blocks.insert((0, y, 1), BlockKind::Solid);
    }
    let world = Grid(blocks);
    let shaft = |heights: Vec<i32>| Path {
        nodes: heights
            .into_iter()
            .enumerate()
            .map(|(index, y)| PathNode {
                pos: BlockPos::new(0, y, 0),
                reached_by: if index == 0 {
                    MoveKind::Start
                } else {
                    MoveKind::Climb
                },
            })
            .collect(),
        total_cost: 100,
    };
    let here = point(0.5, 64.0, 0.5);
    let mut up = PathFollower::new(
        shaft((64..=70).collect()),
        FollowerSettings {
            node_radius_xz: Real64(0),
            passed_node_radius_xz: Real64(0),
            ..FollowerSettings::default()
        },
        1,
    );
    let directive = tick(&mut up, &world, here, false, false, false);
    assert!(matches!(
        directive,
        FollowerDirective::Move {
            aim: Aim::Wall { wall, height_of: 1 },
            sprint: false,
            jump: true,
            turn: true,
            ..
        } if wall == BlockPos::new(0, 64, 1)
    ));
    let mut down = PathFollower::new(
        shaft((60..=64).rev().collect()),
        FollowerSettings {
            node_radius_xz: Real64(0),
            passed_node_radius_xz: Real64(0),
            ..FollowerSettings::default()
        },
        1,
    );
    assert_eq!(
        tick(&mut down, &world, here, false, false, false),
        FollowerDirective::Wait { aim: Aim::Node(1) }
    );
}
