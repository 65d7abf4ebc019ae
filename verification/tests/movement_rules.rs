use std::collections::HashMap;

use azalea_pathfinder::local::moves::{
    generated_drop_limit, wall_proximity_penalty, MAX_GENERATED_DROP,
};
use azalea_pathfinder::local::rules::fall::FallMove;
use azalea_pathfinder::local::rules::parkour::{jump_offsets, ParkourMove};
use azalea_pathfinder::local::rules::swim::SwimMove;
use azalea_pathfinder::local::rules::walk::{JumpMove, WalkMove};
use azalea_pathfinder::local::world::standable_by_blocks;
use azalea_pathfinder::{
    lava_transition_allowed, BlockKind, BlockPos, ClimbMove, Cost, LavaPolicy, MotionMetadata,
    Move, MoveContext, MoveFeatures, MoveKind, PrimitiveId, WaterPolicy, WorldView,
};

struct MetadataGrid(HashMap<(i32, i32, i32), BlockKind>);

impl WorldView for MetadataGrid {
    fn block(&self, pos: BlockPos) -> BlockKind {
        self.0
            .get(&(pos.x, pos.y, pos.z))
            .copied()
            .unwrap_or(BlockKind::Air)
    }

    fn standable(&self, pos: BlockPos) -> bool {
        standable_by_blocks(self, pos)
    }
}

fn generated_metadata<M: Move>(
    movement: &M,
    from: BlockPos,
    to: BlockPos,
    world: &MetadataGrid,
    context: &MoveContext,
) -> (Cost, MotionMetadata) {
    let mut edges = Vec::new();
    movement.candidates(from, world, context, &mut edges);
    let edge = edges
        .iter()
        .find(|edge| edge.to == to)
        .unwrap_or_else(|| panic!("no generated edge from {from:?} to {to:?}"));
    let metadata = movement
        .metadata(from, edge, world, context)
        .expect("built-in edge omitted metadata");
    assert_eq!(
        metadata.predicted.total(),
        edge.cost,
        "metadata diverged for {:?} from {from:?} to {to:?}",
        edge.kind
    );
    (edge.cost, metadata)
}

#[test]
fn representative_generated_edges_preserve_exact_cost_components() {
    let context = MoveContext::default();

    let step_from = BlockPos::new(0, 64, 0);
    let step_to = BlockPos::new(1, 65, 0);
    let step_world = MetadataGrid(
        [
            ((0, 64, 0), BlockKind::Step(8)),
            ((1, 64, 0), BlockKind::Solid),
        ]
        .into_iter()
        .collect(),
    );
    let (cost, metadata) =
        generated_metadata(&WalkMove, step_from, step_to, &step_world, &context);
    assert_eq!(cost, context.costs.step);
    assert_eq!(metadata.primitive, PrimitiveId(PrimitiveId::STEP));

    let jump_from = BlockPos::new(0, 64, 0);
    let jump_to = BlockPos::new(1, 65, 0);
    let jump_world = MetadataGrid([((1, 64, 0), BlockKind::Solid)].into_iter().collect());
    let (cost, metadata) =
        generated_metadata(&JumpMove, jump_from, jump_to, &jump_world, &context);
    assert_eq!(cost, context.costs.jump);
    assert_eq!(metadata.primitive, PrimitiveId(PrimitiveId::JUMP));

    let climb_from = BlockPos::new(0, 64, 0);
    let climb_to = BlockPos::new(1, 65, 0);
    let climb_world = MetadataGrid([((1, 65, 0), BlockKind::Climbable)].into_iter().collect());
    let (cost, metadata) =
        generated_metadata(&ClimbMove, climb_from, climb_to, &climb_world, &context);
    assert_eq!(
        cost,
        context
            .costs
            .climb
            .saturating_mul(2)
            .saturating_add(context.costs.jump)
    );
    assert_eq!(metadata.predicted.time, cost);
    assert_eq!(metadata.predicted_ticks, 41);
    assert_eq!(metadata.features.horizontal_blocks, 1);

    let rung_from = BlockPos::new(0, 64, 0);
    let rung_to = BlockPos::new(0, 65, 0);
    let rung_world = MetadataGrid(
        [
            ((0, 64, 0), BlockKind::Climbable),
            ((0, 65, 0), BlockKind::Climbable),
        ]
        .into_iter()
        .collect(),
    );
    let (cost, metadata) =
        generated_metadata(&ClimbMove, rung_from, rung_to, &rung_world, &context);
    assert_eq!(cost, context.costs.climb);
    assert_eq!(metadata.predicted_ticks, 15);
    assert_eq!(metadata.features.horizontal_blocks, 0);

    let parkour_from = BlockPos::new(0, 64, 0);
    let parkour_to = BlockPos::new(3, 64, 0);
    let parkour_world = MetadataGrid(
        [
            ((-1, 63, 0), BlockKind::Solid),
            ((0, 63, 0), BlockKind::Solid),
            ((3, 63, 0), BlockKind::Solid),
        ]
        .into_iter()
        .collect(),
    );
    let (cost, metadata) = generated_metadata(
        &ParkourMove,
        parkour_from,
        parkour_to,
        &parkour_world,
        &context,
    );
    assert_eq!(cost, context.costs.parkour_per_block.saturating_mul(3));
    assert_eq!(metadata.primitive, PrimitiveId(PrimitiveId::PARKOUR));
}

#[test]
fn swim_toll_is_fixed_safety_under_both_policies() {
    let from = BlockPos::new(0, 64, 0);
    let to = BlockPos::new(1, 64, 0);
    let world = MetadataGrid(
        [
            ((0, 64, 0), BlockKind::Water),
            ((1, 64, 0), BlockKind::Water),
        ]
        .into_iter()
        .collect(),
    );
    for policy in [WaterPolicy::Forbidden, WaterPolicy::Penalized] {
        let context = MoveContext {
            water_policy: policy,
            water_penalty: 777,
            ..MoveContext::default()
        };
        let (cost, metadata) = generated_metadata(&SwimMove, from, to, &world, &context);
        assert_eq!(
            cost,
            context.costs.swim.saturating_add(context.water_penalty)
        );
        assert_eq!(metadata.predicted.time, context.costs.swim);
        assert_eq!(metadata.predicted.safety, context.water_penalty);
        assert_eq!(metadata.predicted.damage, 0);
        assert_eq!(
            metadata.features.flags & MoveFeatures::FLAG_WATER_ENTRY,
            0
        );
    }

    let context = MoveContext {
        water_policy: WaterPolicy::Penalized,
        water_penalty: 777,
        ..MoveContext::default()
    };
    let entry_from = BlockPos::new(-1, 64, 0);
    let entry_world = MetadataGrid([((0, 64, 0), BlockKind::Water)].into_iter().collect());
    let (entry_cost, entry) =
        generated_metadata(&SwimMove, entry_from, from, &entry_world, &context);
    let (stroke_cost, stroke) = generated_metadata(&SwimMove, from, to, &world, &context);
    assert_eq!(entry_cost, stroke_cost);
    assert_eq!(entry.predicted, stroke.predicted);
    assert_ne!(
        entry.features.flags & MoveFeatures::FLAG_WATER_ENTRY,
        0
    );
    assert_eq!(
        stroke.features.flags & MoveFeatures::FLAG_WATER_ENTRY,
        0
    );
    assert_ne!(entry.features, stroke.features);
}

#[test]
fn fall_metadata_matches_dry_damage_and_zeroes_water_landing_damage() {
    let from = BlockPos::new(0, 70, 0);
    let to = BlockPos::new(1, 65, 0);
    let context = MoveContext {
        water_policy: WaterPolicy::Penalized,
        ..MoveContext::default()
    };

    let dry_world = MetadataGrid([((1, 64, 0), BlockKind::Solid)].into_iter().collect());
    let (dry_cost, dry) = generated_metadata(&FallMove, from, to, &dry_world, &context);
    assert_eq!(
        dry.predicted.damage,
        context.fall_damage_penalty.saturating_mul(2)
    );
    assert_eq!(dry.predicted.total(), dry_cost);

    let water_world = MetadataGrid([((1, 65, 0), BlockKind::Water)].into_iter().collect());
    let (water_cost, water) = generated_metadata(&FallMove, from, to, &water_world, &context);
    assert_eq!(water.predicted.damage, 0);
    assert_eq!(
        water_cost,
        context
            .costs
            .fall_base
            .saturating_add(context.costs.fall_per_block.saturating_mul(5))
    );
    assert_eq!(water.predicted.total(), water_cost);
}

#[test]
fn forbidden_policy_only_allows_risk_reducing_escape_steps() {
    let policy = LavaPolicy::Forbidden { clearance: 2 };

    assert!(lava_transition_allowed(0, 0, policy));
    assert!(!lava_transition_allowed(0, 1, policy));
    assert!(lava_transition_allowed(3, 2, policy));
    assert!(!lava_transition_allowed(3, 3, policy));
    assert!(!lava_transition_allowed(2, 3, policy));
}

/// Both ways onto a ladder have to exist, and stepping in must be cheaper.
///
/// A bot walking up to the foot of a ladder should walk into it. It was
/// instead planning to grab the rung above - which means rising and moving
/// sideways on the same tick, into a block whose collision box is a sliver
/// against the far wall - and wedging itself on that sliver.
#[test]
fn a_ladder_is_entered_at_foot_level_by_preference() {
    let mut blocks = HashMap::new();
    // Floor to stand on, and a wall with a ladder up its face.
    for x in 0..=2 {
        for z in 0..=2 {
            blocks.insert((x, 63, z), BlockKind::Solid);
        }
    }
    for y in 64..=67 {
        blocks.insert((2, y, 1), BlockKind::Solid);
        blocks.insert((1, y, 1), BlockKind::Climbable);
    }
    let world = MetadataGrid(blocks);

    let mut edges = Vec::new();
    ClimbMove.candidates(
        BlockPos::new(1, 64, 0),
        &world,
        &MoveContext::default(),
        &mut edges,
    );

    let foot = edges.iter().find(|e| e.to == BlockPos::new(1, 64, 1));
    let reach = edges.iter().find(|e| e.to == BlockPos::new(1, 65, 1));
    let foot = foot.expect("no way onto the ladder at foot level");
    let reach = reach.expect("no way onto the ladder one rung up");
    assert!(
        foot.cost < reach.cost,
        "stepping in ({}) is not cheaper than reaching up ({})",
        foot.cost,
        reach.cost
    );
}

#[test]
fn descending_parkour_finds_a_landing_below_the_first_drop() {
    let world = MetadataGrid(
        [
            ((-1, 63, 0), BlockKind::Solid),
            ((0, 63, 0), BlockKind::Solid),
            ((3, 60, 0), BlockKind::Solid),
        ]
        .into_iter()
        .collect(),
    );
    let mut edges = Vec::new();
    ParkourMove.candidates(
        BlockPos::new(0, 64, 0),
        &world,
        &MoveContext::default(),
        &mut edges,
    );

    assert!(
        edges.iter().any(|edge| edge.to == BlockPos::new(3, 61, 0)),
        "three-block-lower landing was not generated"
    );
}

#[test]
fn extreme_max_fall_is_bounded_and_parkour_rise_never_wraps() {
    let from = BlockPos::new(0, 200, 0);
    let parkour_to = BlockPos::new(2, 200 - MAX_GENERATED_DROP, 0);
    let parkour_world = MetadataGrid(
        [
            ((0, 199, 0), BlockKind::Solid),
            ((2, parkour_to.y - 1, 0), BlockKind::Solid),
        ]
        .into_iter()
        .collect(),
    );
    let fall_to = BlockPos::new(1, 200 - MAX_GENERATED_DROP, 0);
    let fall_world = MetadataGrid(
        [
            ((0, 199, 0), BlockKind::Solid),
            ((1, fall_to.y - 1, 0), BlockKind::Solid),
        ]
        .into_iter()
        .collect(),
    );

    assert_eq!(generated_drop_limit(128), MAX_GENERATED_DROP);
    assert_eq!(generated_drop_limit(i32::MAX), MAX_GENERATED_DROP);
    for max_fall in [128, i32::MAX] {
        let context = MoveContext {
            max_fall,
            ..MoveContext::default()
        };

        let mut parkour = Vec::new();
        ParkourMove.candidates(from, &parkour_world, &context, &mut parkour);
        let edge = parkour
            .iter()
            .find(|edge| edge.to == parkour_to)
            .expect("representable deepest parkour landing was omitted");
        let MoveKind::Parkour { rise, .. } = edge.kind else {
            panic!("deep parkour landing used the wrong move kind");
        };
        assert_eq!(rise, -127);

        let mut falls = Vec::new();
        FallMove.candidates(from, &fall_world, &context, &mut falls);
        assert!(
            falls.iter().any(|edge| edge.to == fall_to),
            "representable deepest fall landing was omitted"
        );
        assert!(
            parkour
                .iter()
                .chain(&falls)
                .all(|edge| { from.y.saturating_sub(edge.to.y) <= MAX_GENERATED_DROP })
        );
    }

    // A landing one block past the encoding/work cap must not be emitted,
    // even when the caller asks for that distance or an effectively
    // unbounded one.
    let too_deep_parkour = BlockPos::new(2, from.y - (MAX_GENERATED_DROP + 1), 0);
    let too_deep_fall = BlockPos::new(1, from.y - (MAX_GENERATED_DROP + 1), 0);
    let parkour_world = MetadataGrid(
        [
            ((0, 199, 0), BlockKind::Solid),
            ((2, too_deep_parkour.y - 1, 0), BlockKind::Solid),
        ]
        .into_iter()
        .collect(),
    );
    let fall_world = MetadataGrid(
        [
            ((0, 199, 0), BlockKind::Solid),
            ((1, too_deep_fall.y - 1, 0), BlockKind::Solid),
        ]
        .into_iter()
        .collect(),
    );
    let context = MoveContext {
        max_fall: i32::MAX,
        ..MoveContext::default()
    };
    let mut parkour = Vec::new();
    ParkourMove.candidates(from, &parkour_world, &context, &mut parkour);
    assert!(!parkour.iter().any(|edge| edge.to == too_deep_parkour));
    let mut falls = Vec::new();
    FallMove.candidates(from, &fall_world, &context, &mut falls);
    assert!(!falls.iter().any(|edge| edge.to == too_deep_fall));
}

/// The wall toll scales with room: a corridor is charged far less than an
/// open plaza, because in a corridor there is no way to be more central.
#[test]
fn wall_toll_fades_in_a_corridor() {
    // A one-wide east-west corridor at y=64: floor at 63, walls at z=+/-1.
    let mut corridor = HashMap::new();
    for x in -3..=3 {
        corridor.insert((x, 63, 0), BlockKind::Solid); // floor
        for h in 0..=1 {
            corridor.insert((x, 64 + h, 1), BlockKind::Solid); // wall
            corridor.insert((x, 64 + h, -1), BlockKind::Solid); // wall
        }
    }
    let corridor = MetadataGrid(corridor);

    // An open plaza: a floor with a single wall block to the north, so the
    // node is wall-adjacent but has room on every other side.
    let mut plaza = HashMap::new();
    for x in -3..=3 {
        for z in -3..=3 {
            plaza.insert((x, 63, z), BlockKind::Solid);
        }
    }
    plaza.insert((0, 64, 1), BlockKind::Solid);
    plaza.insert((0, 65, 1), BlockKind::Solid);
    let plaza = MetadataGrid(plaza);

    let here = BlockPos::new(0, 64, 0);
    let in_corridor = wall_proximity_penalty(here, &corridor, 6);
    let in_open = wall_proximity_penalty(here, &plaza, 6);

    assert!(in_corridor > 0, "corridor should still cost a little");
    assert!(
        in_open > in_corridor,
        "open plaza ({in_open}) should be charged more than a corridor ({in_corridor})"
    );
    assert_eq!(
        wall_proximity_penalty(here, &plaza, Cost::MAX),
        Cost::MAX,
        "an extreme public wall toll must saturate after scaling"
    );
}

#[test]
fn jumps_are_offered_nearest_first() {
    let offsets = jump_offsets();
    let squared: Vec<i32> = offsets.iter().map(|(x, z)| x * x + z * z).collect();
    assert!(squared.windows(2).all(|pair| pair[0] <= pair[1]));
    assert_eq!(&offsets[..4], &[(-2, 0), (0, -2), (0, 2), (2, 0)]);
    let mut expected: Vec<(i32, i32)> = Vec::new();
    for x in -4..=4_i32 {
        for z in -4..=4_i32 {
            if (4..=16).contains(&(x * x + z * z)) {
                expected.push((x, z));
            }
        }
    }
    let mut sorted = offsets.clone();
    sorted.sort_unstable();
    assert_eq!(sorted, expected);

    // Pads all around: the nearer ones are listed first.
    let from = BlockPos::new(0, 64, 0);
    let world = MetadataGrid(
        [
            ((0, 63, 0), BlockKind::Solid),
            ((-2, 63, -2), BlockKind::Solid),
            ((0, 63, 3), BlockKind::Solid),
            ((2, 63, 0), BlockKind::Solid),
        ]
        .into_iter()
        .collect(),
    );
    let mut edges = Vec::new();
    ParkourMove.candidates(from, &world, &MoveContext::default(), &mut edges);
    let level: Vec<BlockPos> = edges
        .iter()
        .map(|edge| edge.to)
        .filter(|to| to.y == 64)
        .collect();
    assert_eq!(
        level,
        vec![
            BlockPos::new(2, 64, 0),
            BlockPos::new(-2, 64, -2),
            BlockPos::new(0, 64, 3),
        ]
    );
}
