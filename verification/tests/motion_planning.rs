use std::collections::HashMap;

use azalea_pathfinder::adaptive::TerrainClass;
use azalea_pathfinder::local::world::standable_by_blocks;
use azalea_pathfinder::planning::metadata_from_generated_edge;
use azalea_pathfinder::{
    BlockKind, BlockPos, Cost, MotionPlan, MoveContext, MoveFeatures, MoveKind, Path, PathNode,
    PrimitiveId, WorldView,
};

struct Grid(HashMap<(i32, i32, i32), BlockKind>);

impl WorldView for Grid {
    fn block(&self, position: BlockPos) -> BlockKind {
        self.0
            .get(&(position.x, position.y, position.z))
            .copied()
            .unwrap_or(BlockKind::Air)
    }

    fn standable(&self, pos: BlockPos) -> bool {
        standable_by_blocks(self, pos)
    }
}

fn path(from: BlockPos, to: BlockPos, kind: MoveKind) -> Path {
    Path {
        nodes: vec![
            PathNode {
                pos: from,
                reached_by: MoveKind::Start,
            },
            PathNode {
                pos: to,
                reached_by: kind,
            },
        ],
        total_cost: 10,
    }
}

#[test]
fn vertical_swim_is_not_a_bank_exit() {
    let from = BlockPos::new(0, 64, 0);
    let to = BlockPos::new(0, 65, 0);
    let world = Grid(
        [
            ((0, 64, 0), BlockKind::Water),
            ((0, 65, 0), BlockKind::Water),
        ]
        .into_iter()
        .collect(),
    );
    let plan = MotionPlan::try_from_path(
        path(from, to, MoveKind::Swim),
        &world,
        &MoveContext::default(),
    )
    .unwrap();
    assert_eq!(plan.steps()[0].primitive, PrimitiveId(PrimitiveId::SWIM));
}

#[test]
fn raised_dry_bank_is_an_exit() {
    let from = BlockPos::new(0, 64, 0);
    let to = BlockPos::new(1, 65, 0);
    let world = Grid(
        [((0, 64, 0), BlockKind::Water), ((1, 65, 0), BlockKind::Air)]
            .into_iter()
            .collect(),
    );
    let plan = MotionPlan::try_from_path(
        path(from, to, MoveKind::Swim),
        &world,
        &MoveContext::default(),
    )
    .unwrap();
    assert_eq!(plan.steps()[0].primitive, PrimitiveId(PrimitiveId::SWIM_EXIT));
}

#[test]
fn diagonal_parkour_uses_generator_block_count() {
    let plan = MotionPlan::try_from_path(
        path(
            BlockPos::new(0, 64, 0),
            BlockPos::new(2, 64, 2),
            MoveKind::Parkour { blocks: 3, rise: 0 },
        ),
        &Grid(HashMap::new()),
        &MoveContext::default(),
    )
    .unwrap();
    assert_eq!(plan.steps()[0].features.horizontal_blocks, 3);
    assert_eq!(plan.steps()[0].predicted.time, 66);
}

#[test]
fn fall_keeps_base_slope_and_damage_separate() {
    let plan = MotionPlan::try_from_path(
        path(
            BlockPos::new(0, 70, 0),
            BlockPos::new(1, 65, 0),
            MoveKind::Fall,
        ),
        &Grid(HashMap::new()),
        &MoveContext::default(),
    )
    .unwrap();
    let step = &plan.steps()[0];
    assert_eq!(
        step.predicted.time,
        MoveContext::default().costs.fall_base
            + MoveContext::default().costs.fall_per_block * 5
    );
    assert_eq!(
        step.predicted.damage,
        MoveContext::default().fall_damage_penalty * 2
    );
    assert_eq!(step.predicted.total(), 134);
}

#[test]
fn fallback_metadata_preserves_high_climb_and_rising_parkour_costs() {
    let context = MoveContext::default();
    let climb_from = BlockPos::new(0, 64, 0);
    let climb_to = BlockPos::new(1, 65, 0);
    let climb_world = Grid([((1, 65, 0), BlockKind::Climbable)].into_iter().collect());
    let climb = MotionPlan::try_from_path(
        path(climb_from, climb_to, MoveKind::Climb),
        &climb_world,
        &context,
    )
    .unwrap();
    assert_eq!(
        climb.steps()[0].predicted.total(),
        context
            .costs
            .climb
            .saturating_mul(2)
            .saturating_add(context.costs.jump)
    );
    assert_eq!(climb.steps()[0].predicted_ticks, 41);

    let parkour = MotionPlan::try_from_path(
        path(
            BlockPos::new(0, 64, 0),
            BlockPos::new(3, 65, 0),
            MoveKind::Parkour { blocks: 3, rise: 1 },
        ),
        &Grid(HashMap::new()),
        &context,
    )
    .unwrap();
    assert_eq!(
        parkour.steps()[0].predicted.total(),
        context
            .costs
            .parkour_per_block
            .saturating_mul(3)
            .saturating_add(context.costs.jump)
    );
}

#[test]
fn water_toll_is_fixed_safety_and_water_fall_has_no_damage() {
    let context = MoveContext::default();
    let swim_from = BlockPos::new(0, 64, 0);
    let swim_to = BlockPos::new(1, 64, 0);
    let swim_world = Grid(
        [
            ((0, 64, 0), BlockKind::Water),
            ((1, 64, 0), BlockKind::Water),
        ]
        .into_iter()
        .collect(),
    );
    let swim = MotionPlan::try_from_path(
        path(swim_from, swim_to, MoveKind::Swim),
        &swim_world,
        &context,
    )
    .unwrap();
    let swim = &swim.steps()[0];
    assert_eq!(swim.predicted.time, context.costs.swim);
    assert_eq!(swim.predicted.safety, context.water_penalty);
    assert_eq!(swim.features.flags & MoveFeatures::FLAG_WATER_ENTRY, 0);
    assert_eq!(
        swim.predicted.total(),
        context.costs.swim.saturating_add(context.water_penalty)
    );

    let entry_from = BlockPos::new(-1, 64, 0);
    let entry_world = Grid([((0, 64, 0), BlockKind::Water)].into_iter().collect());
    let entry = MotionPlan::try_from_path(
        path(entry_from, swim_from, MoveKind::Swim),
        &entry_world,
        &context,
    )
    .unwrap();
    let entry = &entry.steps()[0];
    assert_ne!(entry.features.flags & MoveFeatures::FLAG_WATER_ENTRY, 0);
    assert_ne!(entry.features, swim.features);
    assert_eq!(entry.predicted, swim.predicted);

    let fall_from = BlockPos::new(0, 70, 0);
    let fall_to = BlockPos::new(1, 65, 0);
    let fall_world = Grid([((1, 65, 0), BlockKind::Water)].into_iter().collect());
    let fall = MotionPlan::try_from_path(
        path(fall_from, fall_to, MoveKind::Fall),
        &fall_world,
        &context,
    )
    .unwrap();
    let fall = &fall.steps()[0];
    assert_eq!(fall.predicted.damage, 0);
    assert_eq!(
        fall.predicted.time,
        context
            .costs
            .fall_base
            .saturating_add(context.costs.fall_per_block.saturating_mul(5))
    );
    assert_eq!(fall.features.terrain, TerrainClass::Water);
}

#[test]
fn component_split_never_exceeds_authoritative_edge_cost() {
    let from = BlockPos::new(0, 70, 0);
    let to = BlockPos::new(1, 60, 0);
    let context = MoveContext {
        fall_damage_penalty: Cost::MAX,
        water_penalty: Cost::MAX,
        ..MoveContext::default()
    };
    let metadata = metadata_from_generated_edge(
        PrimitiveId(PrimitiveId::FALL),
        from,
        to,
        MoveKind::Fall,
        &Grid(HashMap::new()),
        &context,
        5,
    );
    assert_eq!(metadata.predicted.total(), 5);
    assert_eq!(metadata.predicted.damage, 5);
    assert_eq!(metadata.predicted.time, 0);

    let water = Grid([((1, 60, 0), BlockKind::Water)].into_iter().collect());
    let metadata = metadata_from_generated_edge(
        PrimitiveId(PrimitiveId::SWIM),
        from,
        to,
        MoveKind::Swim,
        &water,
        &context,
        7,
    );
    assert_eq!(metadata.predicted.total(), 7);
    assert_eq!(metadata.predicted.safety, 7);
    assert_eq!(metadata.predicted.time, 0);
}
