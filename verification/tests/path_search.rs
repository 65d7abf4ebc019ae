use std::cmp::Reverse;
use std::collections::{BinaryHeap, HashMap, HashSet};
use std::sync::atomic::{AtomicBool, AtomicU64, Ordering};
use std::sync::Arc;
use std::time::{Duration, Instant};

use azalea_pathfinder::adaptive::{NonceAllocator, TerrainClass};
use azalea_pathfinder::local::astar::MAX_CANDIDATES_PER_MOVE;
use azalea_pathfinder::local::clock::StoppedClock;
use azalea_pathfinder::local::moves::Edge;
use azalea_pathfinder::local::rules::builtin::BuiltinMove;
use azalea_pathfinder::local::tree::tie_break;
use azalea_pathfinder::local::world::{standable_by_blocks, HALF_BLOCK};
use azalea_pathfinder::pos_map::PosMap;
use azalea_pathfinder::{
    default_moves, find_path, find_path_best_effort, lava_risk, movement_costs_hash, AdaptiveMode, AdaptiveProfile,
    AdaptiveRegime, AdaptiveSettings, AttributionEvidence, BlockGoal, BlockKind, BlockPos, Cost,
    CostComponents, Goal, JourneyMetrics, MotionMetadata, MotionPlanError, Move, MoveAttempt,
    MoveContext, MoveFeatures, MoveKind, MovementCosts, ObservationContext, ObservationId,
    ObservationOutcome, Path, PathError, PathNode, PrimitiveId, ProfileKey, PromotionReport,
    RevisionKind, RevisionMismatch, SearchAssumptions, SearchSession, SearchSlice, SearchStatus,
    WaterPolicy, WorldView,
};

/// Small test world where unspecified blocks are air.
struct Grid {
    solid: HashSet<(i32, i32, i32)>,
    steps: HashMap<(i32, i32, i32), u8>,
    lava: HashSet<(i32, i32, i32)>,
    water: HashSet<(i32, i32, i32)>,
}

impl Grid {
    fn new() -> Self {
        Self {
            solid: HashSet::new(),
            steps: HashMap::new(),
            lava: HashSet::new(),
            water: HashSet::new(),
        }
    }

    /// Fills `ys` with water, clearing anything solid already there.
    fn pool(
        &mut self,
        xs: std::ops::RangeInclusive<i32>,
        zs: std::ops::RangeInclusive<i32>,
        ys: std::ops::RangeInclusive<i32>,
    ) {
        for x in xs {
            for z in zs.clone() {
                for y in ys.clone() {
                    self.solid.remove(&(x, y, z));
                    self.water.insert((x, y, z));
                }
            }
        }
    }

    /// Adds a partial block of the given height, in sixteenths.
    fn step(&mut self, x: i32, y: i32, z: i32, height: u8) {
        self.steps.insert((x, y, z), height);
    }

    /// Adds a solid floor; the player stands one block above it.
    fn floor(
        &mut self,
        xs: std::ops::RangeInclusive<i32>,
        zs: std::ops::RangeInclusive<i32>,
        y: i32,
    ) {
        for x in xs {
            for z in zs.clone() {
                self.solid.insert((x, y, z));
            }
        }
    }
}

impl WorldView for Grid {
    fn block(&self, pos: BlockPos) -> BlockKind {
        let k = (pos.x, pos.y, pos.z);
        if self.solid.contains(&k) {
            BlockKind::Solid
        } else if let Some(height) = self.steps.get(&k) {
            BlockKind::Step(*height)
        } else if self.lava.contains(&k) {
            BlockKind::Lava
        } else if self.water.contains(&k) {
            BlockKind::Water
        } else {
            BlockKind::Air
        }
    }

    fn standable(&self, pos: BlockPos) -> bool {
        standable_by_blocks(self, pos)
    }
}

fn ctx() -> MoveContext {
    MoveContext::default()
}

/// Context for the tests that are about *how* the bot swims rather than
/// whether it should. The default policy forbids water outright.
fn wet_ctx() -> MoveContext {
    MoveContext {
        water_policy: WaterPolicy::Penalized,
        water_penalty: 0,
        ..MoveContext::default()
    }
}

fn dist(a: BlockPos, b: BlockPos) -> i32 {
    (a.x - b.x).abs() + (a.y - b.y).abs() + (a.z - b.z).abs()
}

struct CheapDetourMove;

impl Move for CheapDetourMove {
    fn candidates<W: WorldView + ?Sized>(
        &self,
        from: BlockPos,
        _world: &W,
        _ctx: &MoveContext,
        out: &mut Vec<Edge>,
    ) {
        let start = BlockPos::new(0, 64, 0);
        let detour = BlockPos::new(-100, 64, 0);
        let goal = BlockPos::new(10, 64, 0);
        if from == start {
            out.push(Edge {
                to: detour,
                kind: MoveKind::Jump,
                cost: 1,
            });
        } else if from == detour {
            out.push(Edge {
                to: goal,
                kind: MoveKind::Jump,
                cost: 1,
            });
        }
    }

    fn supports_builtin_heuristic(&self) -> bool {
        false
    }

    fn metadata<W: WorldView + ?Sized>(
        &self,
        _from: BlockPos,
        _edge: &Edge,
        _world: &W,
        _ctx: &MoveContext,
    ) -> Option<MotionMetadata> {
        None
    }
}

enum WithDetour {
    Standard(BuiltinMove),
    Detour(CheapDetourMove),
}

impl Move for WithDetour {
    fn candidates<W: WorldView + ?Sized>(
        &self,
        from: BlockPos,
        world: &W,
        ctx: &MoveContext,
        out: &mut Vec<Edge>,
    ) {
        match self {
            WithDetour::Standard(rule) => rule.candidates(from, world, ctx, out),
            WithDetour::Detour(rule) => rule.candidates(from, world, ctx, out),
        }
    }

    fn supports_builtin_heuristic(&self) -> bool {
        match self {
            WithDetour::Standard(rule) => rule.supports_builtin_heuristic(),
            WithDetour::Detour(rule) => rule.supports_builtin_heuristic(),
        }
    }

    fn metadata<W: WorldView + ?Sized>(
        &self,
        from: BlockPos,
        edge: &Edge,
        world: &W,
        ctx: &MoveContext,
    ) -> Option<MotionMetadata> {
        match self {
            WithDetour::Standard(rule) => rule.metadata(from, edge, world, ctx),
            WithDetour::Detour(rule) => rule.metadata(from, edge, world, ctx),
        }
    }
}

#[test]
fn custom_long_range_moves_fall_back_to_optimal_dijkstra_search() {
    let mut grid = Grid::new();
    grid.floor(-2..=12, -1..=1, 63);
    let mut moves: Vec<WithDetour> = default_moves()
        .into_iter()
        .map(WithDetour::Standard)
        .collect();
    moves.push(WithDetour::Detour(CheapDetourMove));
    let ctx = MoveContext {
        goal_tolerance: 0,
        ..ctx()
    };

    let path = find_path(
        &grid,
        BlockPos::new(0, 64, 0),
        BlockPos::new(10, 64, 0),
        &moves,
        &ctx,
    )
    .unwrap();
    assert_eq!(path.total_cost, 2);
    assert_eq!(path.nodes[1].pos, BlockPos::new(-100, 64, 0));
}

#[test]
fn walks_across_flat_floor() {
    let mut grid = Grid::new();
    grid.floor(-2..=8, -2..=2, 63);

    let goal = BlockPos::new(5, 64, 0);
    let path = find_path(
        &grid,
        BlockPos::new(0, 64, 0),
        goal,
        &default_moves(),
        &ctx(),
    )
    .unwrap();

    assert!(dist(path.nodes.last().unwrap().pos, goal) <= 1);
    assert!(
        path.nodes
            .iter()
            .skip(1)
            .all(|n| n.reached_by == MoveKind::Walk)
    );
}

#[test]
fn jumps_up_a_step() {
    let mut grid = Grid::new();
    grid.floor(-2..=2, -2..=2, 63); // stand at y=64
    grid.floor(3..=8, -2..=2, 64); // stand at y=65

    let path = find_path(
        &grid,
        BlockPos::new(0, 64, 0),
        BlockPos::new(6, 65, 0),
        &default_moves(),
        &ctx(),
    )
    .unwrap();

    assert!(path.nodes.iter().any(|n| n.reached_by == MoveKind::Jump));
}

#[test]
fn falls_off_a_ledge() {
    let mut grid = Grid::new();
    grid.floor(-2..=2, -2..=2, 65); // stand at y=66
    grid.floor(3..=8, -2..=2, 63); // stand at y=64, a 2-block drop

    let path = find_path(
        &grid,
        BlockPos::new(0, 66, 0),
        BlockPos::new(6, 64, 0),
        &default_moves(),
        &ctx(),
    )
    .unwrap();

    assert!(path.nodes.iter().any(|n| n.reached_by == MoveKind::Fall));
}

#[test]
fn walks_up_stairs_without_jumping() {
    let mut grid = Grid::new();
    grid.floor(-2..=2, -1..=1, 63); // lower floor, stand at y=64
    grid.step(3, 64, 0, HALF_BLOCK); // stair
    grid.step(4, 65, 0, HALF_BLOCK); // stair
    grid.floor(5..=8, -1..=1, 65); // upper floor, stand at y=66

    let path = find_path(
        &grid,
        BlockPos::new(0, 64, 0),
        BlockPos::new(7, 66, 0),
        &default_moves(),
        &ctx(),
    )
    .unwrap();

    assert!(
        path.nodes.iter().all(|n| n.reached_by != MoveKind::Jump),
        "stairs were jumped: {:?}",
        path.nodes
            .iter()
            .map(|n| (n.pos, n.reached_by))
            .collect::<Vec<_>>()
    );
}

#[test]
fn avoids_lava_when_a_dry_route_exists() {
    let mut grid = Grid::new();
    grid.floor(-1..=7, -1..=5, 63); // stand at y=64
    // A safe detour remains outside the two-block lava buffer.
    for z in -1..=1 {
        grid.solid.remove(&(3, 63, z));
        grid.lava.insert((3, 63, z));
    }

    let path = find_path(
        &grid,
        BlockPos::new(0, 64, 0),
        BlockPos::new(6, 64, 0),
        &default_moves(),
        &ctx(),
    )
    .unwrap();

    assert!(
        path.nodes
            .iter()
            .all(|n| lava_risk(n.pos, &grid, 2) == 0),
        "path entered the lava clearance buffer despite a safe detour: {:?}",
        path.nodes.iter().map(|n| n.pos).collect::<Vec<_>>()
    );
}

#[test]
fn routes_round_a_block_that_a_previous_leg_died_on() {
    let mut grid = Grid::new();
    grid.floor(-1..=7, -1..=5, 63); // stand at y=64

    let straight = find_path(
        &grid,
        BlockPos::new(0, 64, 0),
        BlockPos::new(6, 64, 0),
        &default_moves(),
        &ctx(),
    )
    .unwrap();
    assert!(
        straight
            .nodes
            .iter()
            .any(|n| n.pos == BlockPos::new(3, 64, 0))
    );

    let mut avoid = PosMap::new();
    avoid.insert(BlockPos::new(3, 64, 0), 800);
    let round = find_path(
        &grid,
        BlockPos::new(0, 64, 0),
        BlockPos::new(6, 64, 0),
        &default_moves(),
        &MoveContext {
            avoid: Arc::new(avoid),
            ..ctx()
        },
    )
    .unwrap();

    assert!(
        round.nodes.iter().all(|n| n.pos != BlockPos::new(3, 64, 0)),
        "took the tolled block anyway: {:?}",
        round.nodes.iter().map(|n| n.pos).collect::<Vec<_>>()
    );
}

#[test]
fn a_tolled_block_is_still_used_when_it_is_the_only_way() {
    let mut grid = Grid::new();
    grid.floor(-1..=7, 0..=0, 63); // one-block-wide corridor

    let mut avoid = PosMap::new();
    avoid.insert(BlockPos::new(3, 64, 0), 800);
    let path = find_path(
        &grid,
        BlockPos::new(0, 64, 0),
        BlockPos::new(6, 64, 0),
        &default_moves(),
        &MoveContext {
            avoid: Arc::new(avoid),
            ..ctx()
        },
    )
    .unwrap();

    assert!(path.nodes.iter().any(|n| n.pos == BlockPos::new(3, 64, 0)));
}

#[test]
fn refuses_lava_even_when_it_is_the_only_route() {
    let mut grid = Grid::new();
    // The only route through this one-block corridor crosses lava.
    grid.floor(-1..=7, 0..=0, 63);
    grid.solid.remove(&(3, 63, 0));
    grid.lava.insert((3, 63, 0));

    let err = find_path(
        &grid,
        BlockPos::new(0, 64, 0),
        BlockPos::new(6, 64, 0),
        &default_moves(),
        &ctx(),
    )
    .unwrap_err();

    assert!(matches!(err, PathError::NoPath));
}

#[test]
fn best_effort_prioritizes_escaping_an_existing_lava_hazard() {
    let mut grid = Grid::new();
    // Escaping east initially moves away from the unreachable western goal.
    grid.floor(0..=4, 0..=0, 63);
    grid.solid.remove(&(0, 63, 0));
    grid.lava.insert((0, 63, 0));
    let start = BlockPos::new(0, 64, 0);
    let goal = BlockPos::new(-6, 64, 0);

    let (path, reached) = find_path_best_effort(&grid, start, goal, &default_moves(), &ctx());

    assert!(!reached, "the westward goal is outside the known floor");
    let risks = path
        .nodes
        .iter()
        .map(|node| lava_risk(node.pos, &grid, 2))
        .collect::<Vec<_>>();
    assert_eq!(risks.first(), Some(&3));
    assert!(
        risks
            .windows(2)
            .all(|pair| pair[1] == 0 || pair[1] < pair[0]),
        "lava exposure did not strictly decrease until safe: {risks:?}"
    );
    assert_eq!(risks.last(), Some(&0));
    assert!(
        path.nodes.last().unwrap().pos.x >= 3,
        "the partial route should move east until clear: {:?}",
        path.nodes.iter().map(|node| node.pos).collect::<Vec<_>>()
    );
}

#[test]
fn no_path_out_of_a_sealed_box() {
    let mut grid = Grid::new();
    grid.floor(-2..=2, -2..=2, 63);
    // Seal the room with walls and a roof.
    for y in 64..=67 {
        for x in -2..=2 {
            grid.solid.insert((x, y, -2));
            grid.solid.insert((x, y, 2));
        }
        for z in -2..=2 {
            grid.solid.insert((-2, y, z));
            grid.solid.insert((2, y, z));
        }
    }
    grid.floor(-2..=2, -2..=2, 68);

    let err = find_path(
        &grid,
        BlockPos::new(0, 64, 0),
        BlockPos::new(20, 64, 0),
        &default_moves(),
        &ctx(),
    )
    .unwrap_err();

    assert!(matches!(err, PathError::NoPath));
}

#[test]
fn swims_across_a_three_block_water_channel() {
    let mut grid = Grid::new();
    // A flooded stretch of a two-high corridor. The low ceiling is what
    // rules out jumping it: vanilla will not jump with a block over the
    // head, so the water has to be swum.
    grid.floor(-2..=8, -1..=1, 63);
    grid.floor(-2..=8, -1..=1, 66);
    grid.pool(3..=5, -1..=1, 64..=65);

    let path = find_path(
        &grid,
        BlockPos::new(0, 64, 0),
        BlockPos::new(7, 64, 0),
        &default_moves(),
        &wet_ctx(),
    )
    .unwrap();

    assert!(
        path.nodes.iter().any(|n| n.reached_by == MoveKind::Swim),
        "the channel was crossed without swimming: {:?}",
        path.nodes
            .iter()
            .map(|n| (n.pos, n.reached_by))
            .collect::<Vec<_>>()
    );
    assert!(
        path.nodes
            .iter()
            .all(|n| grid.block(n.pos) != BlockKind::Water || n.reached_by == MoveKind::Swim),
        "a water block was entered by a land move: {:?}",
        path.nodes
            .iter()
            .map(|n| (n.pos, n.reached_by))
            .collect::<Vec<_>>()
    );
    assert!(dist(path.nodes.last().unwrap().pos, BlockPos::new(7, 64, 0)) <= 1);
}

#[test]
fn climbs_out_of_a_pool_onto_a_one_block_bank() {
    let mut grid = Grid::new();
    grid.floor(-2..=8, -1..=1, 63); // bank surface, stand at y=64
    grid.floor(3..=5, -1..=1, 60); // pool bottom
    grid.pool(3..=5, -1..=1, 61..=63); // surface flush with the bank top

    let path = find_path(
        &grid,
        BlockPos::new(4, 63, 0),
        BlockPos::new(7, 64, 0),
        &default_moves(),
        &wet_ctx(),
    )
    .unwrap();

    let out = path
        .nodes
        .iter()
        .find(|n| n.pos.y == 64)
        .expect("the path never left the water");
    assert_eq!(
        out.reached_by,
        MoveKind::Swim,
        "climbing out of water is a swim, not a jump: {:?}",
        path.nodes
            .iter()
            .map(|n| (n.pos, n.reached_by))
            .collect::<Vec<_>>()
    );
}

#[test]
fn refuses_a_pool_whose_bank_is_two_blocks_above_the_surface() {
    let mut grid = Grid::new();
    // Same pool, but the bank is two blocks proud of the water. Vanilla
    // cannot climb that from a swim, so there is no route at all.
    for y in 63..=64 {
        grid.floor(-2..=2, -1..=1, y);
        grid.floor(6..=8, -1..=1, y);
    }
    grid.floor(3..=5, -1..=1, 60);
    grid.pool(3..=5, -1..=1, 61..=63);

    let err = find_path(
        &grid,
        BlockPos::new(4, 63, 0),
        BlockPos::new(7, 65, 0),
        &default_moves(),
        &wet_ctx(),
    )
    .unwrap_err();

    assert!(matches!(err, PathError::NoPath));
}

#[test]
fn prefers_a_dry_route_over_a_shorter_swim() {
    let mut grid = Grid::new();
    grid.floor(-1..=7, -1..=1, 63); // stand at y=64
    // A pond straight ahead with dry ground round its far side.
    grid.floor(3..=5, -1..=0, 60);
    grid.pool(3..=5, -1..=0, 61..=63);

    let path = find_path(
        &grid,
        BlockPos::new(0, 64, 0),
        BlockPos::new(6, 64, 0),
        &default_moves(),
        &MoveContext {
            goal_tolerance: 0,
            ..ctx()
        },
    )
    .unwrap();

    assert!(
        path.nodes.iter().all(|n| n.reached_by != MoveKind::Swim),
        "swam through the pond despite a dry way round: {:?}",
        path.nodes
            .iter()
            .map(|n| (n.pos, n.reached_by))
            .collect::<Vec<_>>()
    );
}

#[test]
fn the_default_policy_will_not_cross_a_channel_it_could_swim() {
    // The same flooded corridor the swim test crosses. Under the default
    // policy there is no dry way round, and the correct answer is to refuse
    // rather than to plan a swim: azalea's water physics desynchronises
    // from the server every tick and gets the bot kicked.
    let mut grid = Grid::new();
    grid.floor(-2..=8, -1..=1, 63);
    grid.floor(-2..=8, -1..=1, 66);
    grid.pool(3..=5, -1..=1, 64..=65);

    let err = find_path(
        &grid,
        BlockPos::new(0, 64, 0),
        BlockPos::new(7, 64, 0),
        &default_moves(),
        &ctx(),
    )
    .unwrap_err();

    assert!(matches!(err, PathError::NoPath));
}

#[test]
fn the_default_policy_still_lets_a_bot_climb_out_of_water() {
    // Forbidding water must not strand a bot that spawned or fell into it,
    // which is exactly the state the live bots keep waking up in.
    let mut grid = Grid::new();
    grid.floor(-2..=8, -1..=1, 63); // bank surface, stand at y=64
    grid.floor(3..=5, -1..=1, 59); // pool bottom
    grid.pool(3..=5, -1..=1, 60..=63); // surface flush with the bank top

    let (path, reached) = find_path_best_effort(
        &grid,
        BlockPos::new(4, 60, 0), // submerged, three blocks down
        BlockPos::new(7, 64, 0),
        &default_moves(),
        &ctx(),
    );

    assert!(reached, "never got out of the pool: {:?}", path.nodes);
    let end = path.nodes.last().unwrap().pos;
    assert_ne!(grid.block(end), BlockKind::Water);
    // Once out, it never goes back in: the door only opens outward.
    let out_at = path
        .nodes
        .iter()
        .position(|n| grid.block(n.pos) != BlockKind::Water)
        .unwrap();
    assert!(
        path.nodes[out_at..]
            .iter()
            .all(|n| grid.block(n.pos) != BlockKind::Water),
        "re-entered forbidden water after leaving it: {:?}",
        path.nodes
            .iter()
            .map(|n| (n.pos, n.reached_by))
            .collect::<Vec<_>>()
    );
}

#[test]
fn best_effort_prioritizes_escaping_forbidden_water() {
    let mut grid = Grid::new();
    grid.floor(-2..=8, -1..=1, 63);
    grid.floor(3..=5, -1..=1, 59);
    grid.pool(3..=5, -1..=1, 60..=63);
    let start = BlockPos::new(4, 60, 0);
    // Swimming west is initially closer, but the goal is outside the
    // captured floor. The safe partial result must escape onto either bank.
    let goal = BlockPos::new(-20, 60, 0);

    let (path, reached) = find_path_best_effort(&grid, start, goal, &default_moves(), &ctx());

    assert!(!reached);
    assert_eq!(grid.block(start), BlockKind::Water);
    assert_ne!(
        grid.block(path.nodes.last().unwrap().pos),
        BlockKind::Water,
        "partial route stayed in forbidden water: {:?}",
        path.nodes
            .iter()
            .map(|node| (node.pos, node.reached_by))
            .collect::<Vec<_>>()
    );
}

#[test]
fn best_effort_returns_partial_toward_unreachable_goal() {
    // The floor ends before the goal, like an unloaded chunk boundary.
    let mut grid = Grid::new();
    grid.floor(-2..=4, -2..=2, 63);

    let start = BlockPos::new(0, 64, 0);
    let goal = BlockPos::new(20, 64, 0);
    let (path, reached) = find_path_best_effort(&grid, start, goal, &default_moves(), &ctx());

    assert!(!reached, "goal is past the floor; can't be reached yet");
    assert!(path.nodes.len() >= 2, "should still step toward the goal");
    let end = path.nodes.last().unwrap().pos;
    assert!(
        dist(end, goal) < dist(start, goal),
        "partial path {end:?} is no closer to {goal:?} than start"
    );
}
/// A hand-built parkour course is a chain of single blocks with nothing
/// behind any of them, and it has to be walkable end to end.
///
/// The planner used to refuse every jump on one. Any jump of three blocks
/// or any jump that gained height needed a block behind the takeoff to run
/// up from, and a one-block platform never has one, so a course made
/// entirely of those jumps was invisible: a bot sent to the far end walked
/// to the ground underneath it and reported no route. The shape here is
/// taken from a real course - four rising three-block jumps, then a level
/// one - because that is the shape the rule was wrong about.
#[test]
fn a_course_of_isolated_blocks_is_traversable() {
    let mut grid = Grid::new();
    let pillars = [(0, 36), (3, 37), (5, 38), (8, 39), (11, 40), (14, 40)];
    for (x, y) in pillars {
        grid.floor(x..=x, 0..=0, y);
    }

    let path = find_path(
        &grid,
        BlockPos::new(0, 37, 0),
        BlockPos::new(14, 41, 0),
        &default_moves(),
        &ctx(),
    )
    .expect("no route along the course");

    let end = path.nodes.last().unwrap().pos;
    assert_eq!(end, BlockPos::new(14, 41, 0), "stopped short at {end:?}");
    for (x, y) in pillars {
        let stand = BlockPos::new(x, y + 1, 0);
        assert!(
            path.nodes.iter().any(|n| n.pos == stand),
            "skipped the platform at {stand:?}"
        );
    }
}

/// The run-up still buys distance; it just no longer decides whether to
/// jump at all.
///
/// Four blocks of travel is the jump that genuinely needs a runway, so from
/// an isolated block it stays refused - otherwise removing the veto would
/// have traded a bot that never jumps for one that jumps into holes.
#[test]
fn the_longest_jump_still_needs_a_runway() {
    let mut lonely = Grid::new();
    lonely.floor(0..=0, 0..=0, 63);
    lonely.floor(4..=4, 0..=0, 63);
    assert!(
        find_path(
            &lonely,
            BlockPos::new(0, 64, 0),
            BlockPos::new(4, 64, 0),
            &default_moves(),
            &ctx(),
        )
        .ok()
        .is_none_or(|p| p.nodes.last().unwrap().pos != BlockPos::new(4, 64, 0)),
        "took a four-block jump with no run-up"
    );

    let mut runway = Grid::new();
    runway.floor(-3..=0, 0..=0, 63);
    runway.floor(4..=4, 0..=0, 63);
    let path = find_path(
        &runway,
        BlockPos::new(-3, 64, 0),
        BlockPos::new(4, 64, 0),
        &default_moves(),
        &ctx(),
    )
    .expect("no route with a runway");
    assert_eq!(path.nodes.last().unwrap().pos, BlockPos::new(4, 64, 0));
}
/// A snowfield with an even lane and a ragged one: take the even lane.
///
/// Walking beside a deeper snow layer lets a corner of the body be lifted a
/// fraction of a block, and that is where every measured anticheat
/// Simulation flag on this map landed. Both lanes reach the goal and the
/// ragged one is not one block longer, so only the toll can separate them.
#[test]
fn a_route_prefers_the_even_side_of_a_snowfield() {
    let mut grid = Grid::new();
    // Two lanes of equal length with a junction at each end, so the only
    // thing that can decide between them is what they are made of.
    grid.floor(0..=8, -1..=-1, 63);
    grid.floor(0..=8, 1..=1, 63);
    grid.floor(0..=0, 0..=0, 63);
    grid.floor(8..=8, 0..=0, 63);
    // z = -1 is even snow all the way; z = +1 alternates depth, so every
    // block on it has a taller neighbour.
    for x in 0..=8 {
        grid.step(x, 64, -1, 4);
        grid.step(x, 64, 1, if x % 2 == 0 { 4 } else { 8 });
    }

    let path = find_path(
        &grid,
        BlockPos::new(0, 64, 0),
        BlockPos::new(8, 64, 0),
        &default_moves(),
        &ctx(),
    )
    .expect("no route across the field");

    let ragged = path.nodes.iter().filter(|n| n.pos.z == 1).count();
    let even = path.nodes.iter().filter(|n| n.pos.z == -1).count();
    assert!(
        even > ragged,
        "took the ragged lane: {even} even nodes vs {ragged} ragged"
    );
}

/// The toll must not make uneven ground impassable.
///
/// A snowy mountain is built entirely of these steps, so a penalty that
/// refuses them would trade a bot that gets flagged for one that cannot
/// leave the hub.
#[test]
fn uneven_ground_is_still_crossed_when_it_is_the_only_way() {
    let mut grid = Grid::new();
    grid.floor(-1..=9, -1..=1, 63);
    for x in 0..=8 {
        grid.step(x, 64, 0, if x % 2 == 0 { 4 } else { 8 });
    }
    let path = find_path(
        &grid,
        BlockPos::new(0, 64, 0),
        BlockPos::new(8, 64, 0),
        &default_moves(),
        &ctx(),
    )
    .expect("refused to cross uneven ground with no alternative");
    // Within the goal tolerance, which is what "reached" means here.
    let end = path.nodes.last().unwrap().pos;
    assert!(
        dist(end, BlockPos::new(8, 64, 0)) <= 1,
        "stopped at {end:?}"
    );
}

#[test]
fn extreme_time_budgets_are_handled_without_panicking() {
    let mut grid = Grid::new();
    grid.floor(-2..=4, -2..=2, 63);
    let start = BlockPos::new(0, 64, 0);
    let goal = BlockPos::new(4, 64, 0);

    let zero_budget = MoveContext {
        goal_tolerance: 0,
        time_budget_ms: 0,
        ..ctx()
    };
    assert!(matches!(
        find_path(&grid, start, goal, &default_moves(), &zero_budget),
        Err(PathError::SearchBudgetExhausted)
    ));

    let unlimited_clock = MoveContext {
        goal_tolerance: 0,
        time_budget_ms: u64::MAX,
        ..ctx()
    };
    assert!(find_path(&grid, start, goal, &default_moves(), &unlimited_clock).is_ok());
}

fn graph_node(id: i32) -> BlockPos {
    BlockPos::new(id, 64, 0)
}

struct GraphMove {
    edges: HashMap<i32, Vec<(i32, Cost)>>,
    heuristic_compatible: bool,
}

impl GraphMove {
    fn new(edges: &[(i32, i32, Cost)], heuristic_compatible: bool) -> Self {
        let mut by_source: HashMap<i32, Vec<(i32, Cost)>> =
            HashMap::new();
        for &(from, to, cost) in edges {
            by_source.entry(from).or_default().push((to, cost));
        }
        Self {
            edges: by_source,
            heuristic_compatible,
        }
    }
}

impl Move for GraphMove {
    fn candidates<W: WorldView + ?Sized>(
        &self,
        from: BlockPos,
        _world: &W,
        _ctx: &MoveContext,
        out: &mut Vec<Edge>,
    ) {
        for &(to, cost) in self.edges.get(&from.x).into_iter().flatten() {
            out.push(Edge {
                to: graph_node(to),
                kind: MoveKind::Walk,
                cost,
            });
        }
    }

    fn supports_builtin_heuristic(&self) -> bool {
        self.heuristic_compatible
    }

    fn metadata<W: WorldView + ?Sized>(
        &self,
        from: BlockPos,
        edge: &Edge,
        _world: &W,
        _ctx: &MoveContext,
    ) -> Option<MotionMetadata> {
        Some(MotionMetadata {
            primitive: PrimitiveId(PrimitiveId::WALK_CARDINAL),
            features: MoveFeatures::new(
                from.x.abs_diff(edge.to.x).min(16) as u8,
                0,
                TerrainClass::Unknown,
            ),
            predicted: CostComponents {
                time: edge.cost,
                ..CostComponents::default()
            },
            predicted_ticks: 1,
        })
    }
}

struct GraphGoal {
    target: i32,
    lower_bounds: HashMap<i32, Cost>,
}

impl Goal for GraphGoal {
    fn is_satisfied(&self, pos: BlockPos) -> bool {
        pos.x == self.target
    }

    fn heuristic_lower_bound(&self, pos: BlockPos, _ctx: &MoveContext) -> Option<Cost> {
        Some(self.lower_bounds.get(&pos.x).copied().unwrap_or(0))
    }

    fn progress_key(&self, pos: BlockPos) -> u64 {
        u64::from(pos.x.abs_diff(self.target))
    }

    fn revision(&self) -> u64 {
        0
    }
}

struct MutableGoal {
    target: BlockPos,
    revision: AtomicU64,
}

impl Goal for MutableGoal {
    fn is_satisfied(&self, pos: BlockPos) -> bool {
        pos == self.target
    }

    fn revision(&self) -> u64 {
        self.revision.load(Ordering::Relaxed)
    }

    fn heuristic_lower_bound(&self, _pos: BlockPos, _ctx: &MoveContext) -> Option<Cost> {
        None
    }

    fn progress_key(&self, _pos: BlockPos) -> u64 {
        u64::MAX
    }
}

struct SlowGoalMove {
    called: Arc<AtomicBool>,
}

impl Move for SlowGoalMove {
    fn candidates<W: WorldView + ?Sized>(
        &self,
        from: BlockPos,
        _world: &W,
        _ctx: &MoveContext,
        out: &mut Vec<Edge>,
    ) {
        if from == graph_node(0) {
            self.called.store(true, Ordering::Relaxed);
            let began = Instant::now();
            while began.elapsed() < Duration::from_millis(75) {}
            out.push(Edge {
                to: graph_node(1),
                kind: MoveKind::Walk,
                cost: 1,
            });
        }
    }

    fn supports_builtin_heuristic(&self) -> bool {
        false
    }

    fn metadata<W: WorldView + ?Sized>(
        &self,
        _from: BlockPos,
        _edge: &Edge,
        _world: &W,
        _ctx: &MoveContext,
    ) -> Option<MotionMetadata> {
        None
    }
}

struct OversizedMove;

impl Move for OversizedMove {
    fn candidates<W: WorldView + ?Sized>(
        &self,
        from: BlockPos,
        _world: &W,
        _ctx: &MoveContext,
        out: &mut Vec<Edge>,
    ) {
        if from != graph_node(0) {
            return;
        }
        for id in 0..=MAX_CANDIDATES_PER_MOVE {
            out.push(Edge {
                to: graph_node(id as i32 + 10),
                kind: MoveKind::Walk,
                cost: 1,
            });
        }
    }

    fn supports_builtin_heuristic(&self) -> bool {
        false
    }

    fn metadata<W: WorldView + ?Sized>(
        &self,
        _from: BlockPos,
        _edge: &Edge,
        _world: &W,
        _ctx: &MoveContext,
    ) -> Option<MotionMetadata> {
        None
    }
}

struct MustNotRun {
    called: Arc<AtomicBool>,
}

impl Move for MustNotRun {
    fn candidates<W: WorldView + ?Sized>(
        &self,
        from: BlockPos,
        _world: &W,
        _ctx: &MoveContext,
        out: &mut Vec<Edge>,
    ) {
        self.called.store(true, Ordering::Relaxed);
        if from == graph_node(0) {
            out.push(Edge {
                to: graph_node(1),
                kind: MoveKind::Walk,
                cost: 1,
            });
        }
    }

    fn supports_builtin_heuristic(&self) -> bool {
        false
    }

    fn metadata<W: WorldView + ?Sized>(
        &self,
        _from: BlockPos,
        _edge: &Edge,
        _world: &W,
        _ctx: &MoveContext,
    ) -> Option<MotionMetadata> {
        None
    }
}

struct ComponentGraphMove {
    walk_features: MoveFeatures,
}

impl Move for ComponentGraphMove {
    fn candidates<W: WorldView + ?Sized>(
        &self,
        from: BlockPos,
        _world: &W,
        _ctx: &MoveContext,
        out: &mut Vec<Edge>,
    ) {
        match from.x {
            0 => {
                out.push(Edge {
                    to: graph_node(3),
                    kind: MoveKind::Walk,
                    cost: 110,
                });
                out.push(Edge {
                    to: graph_node(1),
                    kind: MoveKind::Jump,
                    cost: 50,
                });
            }
            1 => out.push(Edge {
                to: graph_node(3),
                kind: MoveKind::Jump,
                cost: 62,
            }),
            _ => {}
        }
    }

    fn metadata<W: WorldView + ?Sized>(
        &self,
        from: BlockPos,
        edge: &Edge,
        _world: &W,
        _ctx: &MoveContext,
    ) -> Option<MotionMetadata> {
        let (primitive, features, predicted) =
            if from == graph_node(0) && edge.to == graph_node(3) {
                (
                    PrimitiveId(PrimitiveId::WALK_CARDINAL),
                    self.walk_features,
                    CostComponents {
                        time: 10,
                        safety: 100,
                        ..CostComponents::default()
                    },
                )
            } else {
                (
                    PrimitiveId(PrimitiveId::JUMP),
                    MoveFeatures::new(1, 0, TerrainClass::Unknown),
                    CostComponents {
                        time: edge.cost,
                        ..CostComponents::default()
                    },
                )
            };
        Some(MotionMetadata {
            primitive,
            features,
            predicted,
            predicted_ticks: 10,
        })
    }

    fn supports_builtin_heuristic(&self) -> bool {
        false
    }
}

#[test]
fn one_node_slices_are_equivalent_to_one_shot_search() {
    let mut grid = Grid::new();
    grid.floor(-2..=10, -2..=2, 63);
    let start = BlockPos::new(0, 64, 0);
    let destination = BlockPos::new(8, 64, 0);
    let context = MoveContext {
        goal_tolerance: 0,
        time_budget_ms: u64::MAX,
        ..ctx()
    };
    let moves = default_moves();
    let expected = find_path(&grid, start, destination, &moves, &context).unwrap();
    let goal = BlockGoal::new(destination, 0);
    let mut session = SearchSession::new(&grid, start, &goal, &moves, &context);

    let actual = loop {
        match session.advance(SearchSlice::new(1)) {
            SearchStatus::InProgress => {}
            SearchStatus::Found(path) => break path,
            status => panic!("tiny-slice search ended unexpectedly: {status:?}"),
        }
    };

    assert_eq!(actual.total_cost, expected.total_cost);
    assert_eq!(
        actual.nodes.iter().map(|node| node.pos).collect::<Vec<_>>(),
        expected
            .nodes
            .iter()
            .map(|node| node.pos)
            .collect::<Vec<_>>()
    );
    assert_eq!(
        actual
            .nodes
            .iter()
            .map(|node| node.reached_by)
            .collect::<Vec<_>>(),
        expected
            .nodes
            .iter()
            .map(|node| node.reached_by)
            .collect::<Vec<_>>()
    );
}

#[test]
fn zero_slice_is_side_effect_free_even_for_a_completed_start() {
    let grid = Grid::new();
    let context = MoveContext {
        goal_tolerance: 0,
        time_budget_ms: u64::MAX,
        ..ctx()
    };
    let moves: Vec<BuiltinMove> = Vec::new();
    let start = graph_node(3);
    let goal = BlockGoal::new(start, 0);
    let mut session = SearchSession::new(&grid, start, &goal, &moves, &context);
    let before = session.best_path();

    assert!(matches!(
        session.advance(SearchSlice::new(0)),
        SearchStatus::InProgress
    ));
    assert_eq!(session.expansions(), 0);
    assert_eq!(session.elapsed_compute(), 0);
    assert!(!session.is_terminal());
    assert_eq!(session.best_path().total_cost, before.total_cost);
    assert_eq!(session.best_path().nodes[0].pos, before.nodes[0].pos);

    assert!(matches!(
        session.advance(SearchSlice::new(1)),
        SearchStatus::Found(_)
    ));
    assert_eq!(session.expansions(), 0, "a goal node is never expanded");
}

#[test]
fn per_call_slice_limit_does_not_reset_the_cumulative_hard_budget() {
    let grid = Grid::new();
    let context = MoveContext {
        goal_tolerance: 0,
        max_expansions: 2,
        time_budget_ms: u64::MAX,
        ..ctx()
    };
    let moves = vec![GraphMove::new(
        &[(0, 1, 1), (1, 2, 1), (2, 3, 1)],
        false,
    )];
    let goal = BlockGoal::new(graph_node(3), 0);
    let mut session = SearchSession::new(&grid, graph_node(0), &goal, &moves, &context);

    assert!(matches!(
        session.advance(SearchSlice::new(1)),
        SearchStatus::InProgress
    ));
    assert!(matches!(
        session.advance(SearchSlice::new(1)),
        SearchStatus::InProgress
    ));
    assert_eq!(session.expansions(), 2);
    assert!(matches!(
        session.advance(SearchSlice::new(1)),
        SearchStatus::BudgetExhausted
    ));
    assert_eq!(session.expansions(), 2);
    assert_eq!(session.best_path().nodes.last().unwrap().pos, graph_node(2));
    assert!(matches!(
        session.advance(SearchSlice::unlimited()),
        SearchStatus::BudgetExhausted
    ));
}

#[test]
fn zero_duration_slice_yields_without_consuming_work() {
    let grid = Grid::new();
    let context = MoveContext {
        time_budget_ms: u64::MAX,
        ..ctx()
    };
    let moves = vec![GraphMove::new(&[(0, 1, 1)], false)];
    let goal = BlockGoal::new(graph_node(1), 0);
    let mut session = SearchSession::new(&grid, graph_node(0), &goal, &moves, &context);

    assert!(matches!(
        session.advance(SearchSlice::new(100).with_time_budget(0)),
        SearchStatus::InProgress
    ));
    assert_eq!(session.expansions(), 0);
    assert!(matches!(
        session.advance(SearchSlice::unlimited()),
        SearchStatus::Found(_)
    ));
}

#[test]
fn inconsistent_admissible_heuristic_reopens_nodes_and_stays_optimal() {
    let grid = Grid::new();
    // A is expanded first and reaches C for 4. B has a high-but-admissible
    // heuristic, then improves C to 3 after C was already expanded.
    let moves = vec![GraphMove::new(
        &[(0, 1, 2), (0, 2, 2), (1, 3, 2), (2, 3, 1), (3, 4, 2)],
        true,
    )];
    let goal = GraphGoal {
        target: 4,
        lower_bounds: [(0, 0), (1, 0), (2, 3), (3, 0), (4, 0)]
            .into_iter()
            .collect(),
    };
    let context = MoveContext {
        max_expansions: 100,
        time_budget_ms: u64::MAX,
        ..ctx()
    };
    let mut session = SearchSession::new(&grid, graph_node(0), &goal, &moves, &context);
    let SearchStatus::Found(path) = session.advance(SearchSlice::unlimited()) else {
        panic!("graph search did not find the goal");
    };

    assert_eq!(path.total_cost, 5);
    assert_eq!(
        path.nodes.iter().map(|node| node.pos.x).collect::<Vec<_>>(),
        vec![0, 2, 3, 4]
    );
}

#[test]
fn saturated_cost_is_reachable_and_does_not_confuse_stale_detection() {
    let grid = Grid::new();
    let moves = vec![GraphMove::new(
        &[(0, 1, Cost::MAX), (1, 2, 0)],
        false,
    )];
    let goal = BlockGoal::new(graph_node(2), 0);
    let context = MoveContext {
        max_expansions: 10,
        time_budget_ms: u64::MAX,
        ..ctx()
    };
    let mut session = SearchSession::new(&grid, graph_node(0), &goal, &moves, &context);
    let SearchStatus::Found(path) = session.advance(SearchSlice::unlimited()) else {
        panic!("saturated path was treated as unreachable");
    };

    assert_eq!(path.total_cost, Cost::MAX);
    assert_eq!(path.nodes.last().unwrap().pos, graph_node(2));
}

#[test]
fn checked_revisions_reject_stale_work_without_mutating_the_session() {
    let grid = Grid::new();
    let moves = vec![GraphMove::new(&[(0, 1, 1)], false)];
    let context = MoveContext {
        time_budget_ms: u64::MAX,
        ..ctx()
    };
    let goal = MutableGoal {
        target: graph_node(1),
        revision: AtomicU64::new(7),
    };
    let frozen = SearchAssumptions {
        world_revision: 11,
        cost_revision: 13,
    };
    let mut session = SearchSession::new_with_assumptions(
        &grid,
        graph_node(0),
        &goal,
        &moves,
        &context,
        frozen,
    );

    let status = session.advance_checked(
        SearchSlice::new(1),
        SearchAssumptions {
            world_revision: 12,
            ..frozen
        },
    );
    assert!(matches!(
        status,
        SearchStatus::Invalidated(RevisionMismatch {
            kind: RevisionKind::World,
            expected: 11,
            actual: 12,
        })
    ));
    assert_eq!(session.expansions(), 0);

    goal.revision.store(8, Ordering::Relaxed);
    assert!(matches!(
        session.advance(SearchSlice::new(0)),
        SearchStatus::InProgress
    ));
    assert_eq!(session.expansions(), 0);
    assert!(matches!(
        session.advance_checked(SearchSlice::new(1), frozen),
        SearchStatus::Invalidated(RevisionMismatch {
            kind: RevisionKind::Goal,
            expected: 7,
            actual: 8,
        })
    ));
    assert_eq!(session.expansions(), 0);
}

#[test]
fn positive_advance_rejects_a_cached_terminal_after_goal_revision_changes() {
    let grid = Grid::new();
    let context = MoveContext {
        time_budget_ms: u64::MAX,
        ..ctx()
    };
    let moves: Vec<BuiltinMove> = Vec::new();
    let goal = MutableGoal {
        target: graph_node(0),
        revision: AtomicU64::new(41),
    };
    let mut session = SearchSession::new(&grid, graph_node(0), &goal, &moves, &context);

    assert!(matches!(
        session.advance(SearchSlice::new(1)),
        SearchStatus::Found(_)
    ));
    goal.revision.store(42, Ordering::Relaxed);

    // A zero-work query remains observational and may report the cached
    // status, but any positive advance must check the revision first.
    assert!(matches!(
        session.advance(SearchSlice::new(0)),
        SearchStatus::Found(_)
    ));
    assert!(matches!(
        session.advance(SearchSlice::new(1)),
        SearchStatus::Invalidated(RevisionMismatch {
            kind: RevisionKind::Goal,
            expected: 41,
            actual: 42,
        })
    ));
}

#[test]
fn cumulative_wall_clock_budget_fails_closed_before_accepting_a_late_goal() {
    let grid = Grid::new();
    let called = Arc::new(AtomicBool::new(false));
    let moves = vec![SlowGoalMove {
        called: Arc::clone(&called),
    }];
    let context = MoveContext {
        goal_tolerance: 0,
        max_expansions: 10,
        time_budget_ms: 50,
        ..ctx()
    };
    let goal = BlockGoal::new(graph_node(1), 0);
    let mut session = SearchSession::new(&grid, graph_node(0), &goal, &moves, &context);

    assert!(matches!(
        session.advance(SearchSlice::unlimited()),
        SearchStatus::BudgetExhausted
    ));
    assert!(called.load(Ordering::Relaxed));
    assert!(session.elapsed_compute() >= Duration::from_millis(50).as_nanos());
    assert_eq!(session.best_path().nodes.last().unwrap().pos, graph_node(0));
    assert!(matches!(
        session.advance(SearchSlice::unlimited()),
        SearchStatus::BudgetExhausted
    ));

    // An already-consumed cumulative budget is checked before the next
    // frontier pop, independently of the current slice's own allowance.
    let quick_moves = vec![GraphMove::new(&[(0, 1, 1)], false)];
    let mut already_spent =
        SearchSession::new(&grid, graph_node(0), &goal, &quick_moves, &context);
    let mut clock = StoppedClock::new(49_999_999);
    assert!(matches!(
        already_spent.advance_on(SearchSlice::new(1).with_time_budget(0), &mut clock),
        SearchStatus::InProgress
    ));
    let mut clock = StoppedClock::new(1);
    assert!(matches!(
        already_spent.advance_on(SearchSlice::unlimited(), &mut clock),
        SearchStatus::BudgetExhausted
    ));
    assert_eq!(already_spent.elapsed_compute(), 50_000_000);
    assert_eq!(already_spent.expansions(), 0);
}

enum LimitTest {
    Oversized(OversizedMove),
    Later(MustNotRun),
}

impl Move for LimitTest {
    fn candidates<W: WorldView + ?Sized>(
        &self,
        from: BlockPos,
        world: &W,
        ctx: &MoveContext,
        out: &mut Vec<Edge>,
    ) {
        match self {
            LimitTest::Oversized(rule) => rule.candidates(from, world, ctx, out),
            LimitTest::Later(rule) => rule.candidates(from, world, ctx, out),
        }
    }

    fn supports_builtin_heuristic(&self) -> bool {
        match self {
            LimitTest::Oversized(rule) => rule.supports_builtin_heuristic(),
            LimitTest::Later(rule) => rule.supports_builtin_heuristic(),
        }
    }

    fn metadata<W: WorldView + ?Sized>(
        &self,
        from: BlockPos,
        edge: &Edge,
        world: &W,
        ctx: &MoveContext,
    ) -> Option<MotionMetadata> {
        match self {
            LimitTest::Oversized(rule) => rule.metadata(from, edge, world, ctx),
            LimitTest::Later(rule) => rule.metadata(from, edge, world, ctx),
        }
    }
}

#[test]
fn oversized_custom_move_is_rejected_without_truncation_or_successor_loss() {
    let grid = Grid::new();
    let later_move_called = Arc::new(AtomicBool::new(false));
    let moves = vec![
        LimitTest::Oversized(OversizedMove),
        LimitTest::Later(MustNotRun {
            called: Arc::clone(&later_move_called),
        }),
    ];
    let context = MoveContext {
        goal_tolerance: 0,
        max_expansions: 10,
        time_budget_ms: u64::MAX,
        ..ctx()
    };
    let goal = BlockGoal::new(graph_node(1), 0);
    let mut session = SearchSession::new(&grid, graph_node(0), &goal, &moves, &context);

    assert!(matches!(
        session.advance(SearchSlice::unlimited()),
        SearchStatus::BudgetExhausted
    ));
    assert!(
        !later_move_called.load(Ordering::Relaxed),
        "the planner continued after rejecting oversized output"
    );
    assert_eq!(session.best_path().nodes.len(), 1);
    assert!(matches!(
        session.advance(SearchSlice::unlimited()),
        SearchStatus::BudgetExhausted
    ));
}

#[test]
fn motion_plan_rejects_a_path_with_an_injected_wrong_parent() {
    let grid = Grid::new();
    let moves = vec![GraphMove::new(
        &[(0, 1, 1), (0, 2, 1), (2, 3, 1)],
        false,
    )];
    let context = MoveContext {
        goal_tolerance: 0,
        max_expansions: 10,
        time_budget_ms: u64::MAX,
        ..ctx()
    };
    let goal = BlockGoal::new(graph_node(3), 0);
    let mut session = SearchSession::new(&grid, graph_node(0), &goal, &moves, &context);
    let SearchStatus::Found(generated) = session.advance(SearchSlice::unlimited()) else {
        panic!("test graph did not produce a path");
    };
    assert!(session.motion_plan_for(generated).is_ok());

    // Node 3 was generated from node 2. Both node 1 and its metadata are
    // real, but splicing 1 in as node 3's parent must still be rejected.
    let forged = Path {
        nodes: vec![
            PathNode {
                pos: graph_node(0),
                reached_by: MoveKind::Start,
            },
            PathNode {
                pos: graph_node(1),
                reached_by: MoveKind::Walk,
            },
            PathNode {
                pos: graph_node(3),
                reached_by: MoveKind::Walk,
            },
        ],
        total_cost: 2,
    };
    assert_eq!(
        session.motion_plan_for(forged).unwrap_err(),
        MotionPlanError::MetadataMismatch
    );
}

#[test]
fn adaptive_search_uses_component_costs_and_preserves_safety_tolls() {
    let features = MoveFeatures::new(1, 0, TerrainClass::Unknown);
    let profile_key = ProfileKey::local_default();
    let observation_context = ObservationContext {
        profile: profile_key.clone(),
        journey_id: 71,
        generation: 1,
        leg: 0,
        plan_revision: 1,
        world_revision: 1,
        model_revision: 0,
        planner_settings_hash: 1,
        control_settings_hash: 1,
        baseline_costs_hash: movement_costs_hash(MovementCosts::default()),
        actor_capability_hash: profile_key.capability_hash,
        build_id: "astar-component-cost-test".into(),
        created_unix_ms: 1,
    };
    let regime = AdaptiveRegime {
        build_id: observation_context.build_id.clone(),
        planner_settings_hash: observation_context.planner_settings_hash,
        control_settings_hash: observation_context.control_settings_hash,
        baseline_costs_hash: observation_context.baseline_costs_hash,
        actor_capability_hash: observation_context.actor_capability_hash,
    };
    let settings = AdaptiveSettings {
        mode: AdaptiveMode::Enabled,
        min_samples: 3,
        max_buckets: 16,
        max_step_percent: 25,
        minimum_multiplier_ppm: 500_000,
        maximum_multiplier_ppm: 4_000_000,
        maximum_failure_upper_ppm: 900_000,
        minimum_evaluation_journeys: 1,
        maximum_p95_regression_percent: 10,
    };
    let mut nonces = NonceAllocator::seeded(1_000, 7);
    let mut profile = AdaptiveProfile::new(profile_key);
    for edge_index in 0_u32..3 {
        let attempt = MoveAttempt::begin(
            observation_context.clone(),
            ObservationId {
                nonce: nonces.next_observation_nonce(),
                journey_id: observation_context.journey_id,
                generation: observation_context.generation,
                leg: observation_context.leg,
                edge_index,
                attempt: 0,
            },
            PrimitiveId(PrimitiveId::WALK_CARDINAL),
            features,
            graph_node(0),
            graph_node(3),
            CostComponents {
                time: 10,
                ..CostComponents::default()
            },
            10,
            0,
        )
        .unwrap();
        let observation = attempt
            .finish(
                40,
                u64::from(edge_index) + 1,
                ObservationOutcome::Success,
                AttributionEvidence::ReachedPlannedNode,
            )
            .unwrap();
        assert!(profile.observe(&observation, &settings));
    }
    let metrics = JourneyMetrics {
        journeys: 1,
        failed: 0,
        p95_ticks: 100,
        damage_half_hearts: 0,
        setbacks: 0,
        corrections: 0,
        disconnects: 0,
    };
    let report = PromotionReport {
        evaluation_id: 1,
        candidate_data_revision: profile.data_revision,
        expected_model_revision: profile.model_revision(),
        candidate_hash: profile.candidate_hash(&settings),
        known_good: metrics,
        shadow: metrics,
    };
    profile.promote(&report, &settings).unwrap();
    let model = profile.snapshot(MovementCosts::default(), &settings, &regime);

    let direct_components = CostComponents {
        time: 10,
        safety: 100,
        ..CostComponents::default()
    };
    let adapted =
        model.edge_components(PrimitiveId(PrimitiveId::WALK_CARDINAL), features, direct_components);
    assert_eq!(adapted.time, 13);
    assert_eq!(adapted.safety, 100, "immutable safety toll was scaled");
    assert_eq!(adapted.total(), 113);

    let grid = Grid::new();
    let moves = vec![ComponentGraphMove {
        walk_features: features,
    }];
    let context = MoveContext {
        goal_tolerance: 0,
        max_expansions: 10,
        time_budget_ms: u64::MAX,
        ..ctx()
    };
    let goal = BlockGoal::new(graph_node(3), 0);

    let mut baseline = SearchSession::new(&grid, graph_node(0), &goal, &moves, &context);
    let SearchStatus::Found(baseline_path) = baseline.advance(SearchSlice::unlimited()) else {
        panic!("baseline graph did not produce a path");
    };
    assert_eq!(baseline_path.total_cost, 110);
    assert_eq!(
        baseline_path
            .nodes
            .iter()
            .map(|node| node.pos.x)
            .collect::<Vec<_>>(),
        vec![0, 3]
    );

    let mut adaptive = SearchSession::new_with_cost_model(
        &grid,
        graph_node(0),
        &goal,
        &moves,
        &context,
        &model,
    );
    let SearchStatus::Found(adaptive_path) = adaptive.advance(SearchSlice::unlimited()) else {
        panic!("adaptive graph did not produce a path");
    };
    assert_eq!(adaptive_path.total_cost, 112);
    assert_eq!(
        adaptive_path
            .nodes
            .iter()
            .map(|node| node.pos.x)
            .collect::<Vec<_>>(),
        vec![0, 1, 3],
        "component-aware adaptive cost was not used for route selection"
    );
}

fn reference_dijkstra(
    node_count: i32,
    edges: &[(i32, i32, Cost)],
    start: i32,
    goal: i32,
) -> Option<Cost> {
    let mut outgoing: Vec<Vec<(i32, Cost)>> = vec![Vec::new(); node_count as usize];
    for &(from, to, cost) in edges {
        outgoing[from as usize].push((to, cost));
    }
    let mut distances: Vec<Option<Cost>> = vec![None; node_count as usize];
    let mut frontier = BinaryHeap::new();
    distances[start as usize] = Some(0);
    frontier.push(Reverse((0, start)));
    while let Some(Reverse((cost, at))) = frontier.pop() {
        if distances[at as usize] != Some(cost) {
            continue;
        }
        if at == goal {
            return Some(cost);
        }
        for &(to, edge_cost) in &outgoing[at as usize] {
            let next = cost.saturating_add(edge_cost);
            if distances[to as usize].is_none_or(|known| next < known) {
                distances[to as usize] = Some(next);
                frontier.push(Reverse((next, to)));
            }
        }
    }
    None
}

#[test]
fn randomized_graph_search_matches_independent_dijkstra() {
    let grid = Grid::new();
    let context = MoveContext {
        goal_tolerance: 0,
        max_expansions: 10_000,
        time_budget_ms: u64::MAX,
        ..ctx()
    };
    let mut random = 0x9E37_79B9_7F4A_7C15u64;

    for case in 0..96 {
        let node_count = 4 + (case % 9);
        let mut edges = Vec::new();
        for from in 0..node_count {
            for to in 0..node_count {
                random = random
                    .wrapping_mul(6_364_136_223_846_793_005)
                    .wrapping_add(1_442_695_040_888_963_407);
                if from != to && random >> 61 != 0 {
                    let cost = 1 + ((random >> 32) as Cost % 50);
                    edges.push((from, to, cost));
                }
            }
        }
        let expected = reference_dijkstra(node_count, &edges, 0, node_count - 1);
        let moves = vec![GraphMove::new(&edges, false)];
        let goal = BlockGoal::new(graph_node(node_count - 1), 0);
        let mut session = SearchSession::new(&grid, graph_node(0), &goal, &moves, &context);

        match (session.advance(SearchSlice::unlimited()), expected) {
            (SearchStatus::Found(path), Some(cost)) => {
                assert_eq!(path.total_cost, cost, "random graph case {case}");
            }
            (SearchStatus::Exhausted, None) => {}
            (actual, expected) => {
                panic!("random graph case {case}: got {actual:?}, expected {expected:?}")
            }
        }
    }
}

#[test]
fn reopened_nodes_are_expanded_once_for_each_lower_cost() {
    let grid = Grid::new();
    let moves = vec![GraphMove::new(
        &[(0, 1, 2), (0, 2, 2), (1, 3, 2), (2, 3, 1), (3, 4, 2)],
        true,
    )];
    let goal = GraphGoal {
        target: 4,
        lower_bounds: [(2, 3)].into_iter().collect(),
    };
    // Node 3 is expanded at 4 and again at 3; the others once.
    let context = MoveContext {
        max_expansions: 5,
        time_budget_ms: u64::MAX,
        ..ctx()
    };
    let mut session = SearchSession::new(&grid, graph_node(0), &goal, &moves, &context);
    let mut slices = 0;
    let path = loop {
        match session.advance(SearchSlice::new(1)) {
            SearchStatus::InProgress => slices += 1,
            SearchStatus::Found(path) => break path,
            other => panic!("ended with {other:?}"),
        }
    };
    assert_eq!((slices, session.expansions()), (5, 5));
    assert_eq!(path.total_cost, 5);
}

#[test]
fn equal_routes_are_chosen_by_the_path_seed() {
    let grid = Grid::new();
    let moves = vec![GraphMove::new(
        &[(0, 1, 1), (0, 2, 1), (1, 3, 1), (2, 3, 1)],
        false,
    )];
    let goal = BlockGoal::new(graph_node(3), 0);
    let mut taken = [0, 0];
    for seed in 0..32_u64 {
        let context = MoveContext {
            goal_tolerance: 0,
            max_expansions: 10,
            time_budget_ms: u64::MAX,
            path_seed: seed,
            ..ctx()
        };
        let mut session = SearchSession::new(&grid, graph_node(0), &goal, &moves, &context);
        let SearchStatus::Found(path) = session.advance(SearchSlice::unlimited()) else {
            panic!("seed {seed} found nothing");
        };
        let first = if tie_break(graph_node(2), seed) < tie_break(graph_node(1), seed) {
            2
        } else {
            1
        };
        assert_eq!(path.nodes[1].pos, graph_node(first), "seed {seed}");
        taken[first as usize - 1] += 1;
    }
    assert!(taken[0] > 0 && taken[1] > 0);
}

#[test]
fn without_time_a_search_stays_at_its_start() {
    let mut grid = Grid::new();
    grid.floor(-2..=4, -2..=2, 63);
    let start = BlockPos::new(0, 64, 0);
    let context = MoveContext {
        goal_tolerance: 0,
        time_budget_ms: 0,
        ..ctx()
    };
    let moves = default_moves();
    let goal = BlockGoal::new(start, 0);
    let mut session = SearchSession::new(&grid, start, &goal, &moves, &context);
    let status = session.advance(SearchSlice::unlimited());
    assert!(matches!(status.clone(), SearchStatus::BudgetExhausted));
    assert_eq!(session.expansions(), 0);

    let (path, complete) =
        find_path_best_effort(&grid, start, BlockPos::new(4, 64, 0), &moves, &context);
    assert!(!complete);
    assert_eq!(path.total_cost, 0);
    assert_eq!(path.nodes.len(), 1);
    assert_eq!(path.nodes[0].pos, start);
}

#[test]
fn the_first_of_equally_good_partial_results_is_kept() {
    let grid = Grid::new();
    let moves = vec![GraphMove::new(&[(0, 1, 1), (0, 3, 1)], false)];
    let goal = GraphGoal {
        target: 2,
        lower_bounds: HashMap::new(),
    };
    let mut kept = [0, 0];
    for seed in 0..32_u64 {
        let context = MoveContext {
            max_expansions: 10,
            time_budget_ms: u64::MAX,
            path_seed: seed,
            ..ctx()
        };
        let mut session = SearchSession::new(&grid, graph_node(0), &goal, &moves, &context);
        assert!(matches!(
            session.advance(SearchSlice::unlimited()),
            SearchStatus::Exhausted
        ));
        let first = if tie_break(graph_node(3), seed) < tie_break(graph_node(1), seed) {
            3
        } else {
            1
        };
        assert_eq!(session.best_path().nodes[1].pos, graph_node(first), "seed {seed}");
        kept[usize::from(first == 3)] += 1;
    }
    assert!(kept[0] > 0 && kept[1] > 0);
}
