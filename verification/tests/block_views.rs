use azalea_pathfinder::local::world::{
    snapshot_position, snapshot_shape, standable_by_blocks, BlockFacts,
};
use azalea_pathfinder::{
    classify_state, BlockKind, BlockPos, SnapshotError, WorldSnapshot, WorldView,
    MAX_SNAPSHOT_BLOCKS,
};

/// A block that tops out at `sixteenths` and carries no tag.
fn shaped(name: &str, sixteenths: u8) -> BlockFacts {
    BlockFacts {
        air: false,
        name: name.to_owned(),
        climbable: false,
        water: false,
        no_collision: sixteenths == 0,
        at_most_half: sixteenths <= 8,
        top_sixteenths: sixteenths,
        bottom_half: false,
    }
}

#[test]
fn water_is_swimmable_but_waterlogged_geometry_keeps_its_shape() {
    assert_eq!(
        classify_state(&BlockFacts {
            water: true,
            ..shaped("Water", 0)
        }),
        BlockKind::Water
    );
    assert_eq!(
        classify_state(&BlockFacts {
            water: true,
            ..shaped("KelpPlant", 0)
        }),
        BlockKind::Water
    );
    // A waterlogged slab is still a slab: the body cannot pass through it,
    // so it stays something to walk onto rather than something to swim in.
    assert_eq!(
        classify_state(&BlockFacts {
            water: true,
            bottom_half: true,
            ..shaped("OakSlab", 8)
        }),
        BlockKind::Step(8)
    );
}

#[test]
fn dense_snapshot_preserves_air_solid_and_unloaded_space() {
    let snapshot = WorldSnapshot::from_blocks(
        BlockPos::new(0, 63, 0),
        BlockPos::new(0, 65, 0),
        vec![BlockKind::Unloaded, BlockKind::Solid, BlockKind::Air],
    )
    .unwrap()
    .unwrap();

    assert_eq!(snapshot.block(BlockPos::new(0, 63, 0)), BlockKind::Unloaded);
    assert_eq!(snapshot.block(BlockPos::new(0, 64, 0)), BlockKind::Solid);
    assert_eq!(snapshot.block(BlockPos::new(0, 65, 0)), BlockKind::Air);
    assert_eq!(snapshot.block(BlockPos::new(1, 64, 0)), BlockKind::Unloaded);
    assert_eq!(snapshot.block(BlockPos::new(0, 62, 0)), BlockKind::Unloaded);
}

#[test]
fn excessive_snapshot_volume_is_rejected_before_allocation() {
    assert_eq!(
        snapshot_shape(BlockPos::new(0, 0, 0), BlockPos::new(199, 199, 199)),
        Err(SnapshotError::TooLarge {
            blocks: 8_000_000,
            maximum: MAX_SNAPSHOT_BLOCKS,
        })
    );
}

#[test]
fn empty_collision_blocks_are_passable() {
    assert_eq!(
        classify_state(&shaped("ShortGrass", 0)),
        BlockKind::Passable
    );
    assert_eq!(classify_state(&shaped("Dandelion", 0)), BlockKind::Passable);
}

/// Snow collides one layer below its layer count, two sixteenths each.
fn snow(layers: u8) -> BlockFacts {
    shaped("Snow", 2 * (layers - 1))
}

#[test]
fn snow_is_stepped_to_five_layers_and_jumped_above() {
    assert_eq!(classify_state(&snow(1)), BlockKind::Passable);
    for layers in 2..=5u8 {
        assert_eq!(
            classify_state(&snow(layers)),
            BlockKind::Step(2 * (layers - 1)),
            "{layers}"
        );
    }
    for layers in 6..=8u8 {
        assert_eq!(classify_state(&snow(layers)), BlockKind::Solid, "{layers}");
    }
}

#[test]
fn tags_and_names_come_before_shapes() {
    let ladder = BlockFacts {
        climbable: true,
        ..shaped("Ladder", 16)
    };
    assert_eq!(classify_state(&ladder), BlockKind::Climbable);
    assert_eq!(classify_state(&shaped("Lava", 0)), BlockKind::Lava);
    assert_eq!(
        classify_state(&BlockFacts {
            water: true,
            ..shaped("BubbleColumn", 0)
        }),
        BlockKind::Solid
    );
    assert_eq!(
        classify_state(&BlockFacts {
            air: true,
            ..shaped("CaveAir", 0)
        }),
        BlockKind::Air
    );
    assert_eq!(
        classify_state(&shaped("OakStairs", 16)),
        BlockKind::Solid,
        "a stair hung from above is a full block"
    );
    assert_eq!(
        classify_state(&BlockFacts {
            bottom_half: true,
            ..shaped("OakStairs", 16)
        }),
        BlockKind::Step(8)
    );
    assert_eq!(classify_state(&shaped("OakFenceGate", 16)), BlockKind::Fence);
    assert_eq!(classify_state(&shaped("CobblestoneWall", 16)), BlockKind::Fence);
    assert_eq!(classify_state(&shaped("Stone", 16)), BlockKind::Solid);
    assert_eq!(classify_state(&shaped("WhiteCarpet", 1)), BlockKind::Step(1));
}

struct Floor;

impl WorldView for Floor {
    fn block(&self, pos: BlockPos) -> BlockKind {
        if pos.y < 64 {
            BlockKind::Solid
        } else {
            BlockKind::Air
        }
    }

    fn standable(&self, pos: BlockPos) -> bool {
        standable_by_blocks(self, pos)
    }
}

#[test]
fn captured_blocks_are_those_of_the_world() {
    let (lo, hi) = (BlockPos::new(-2, 60, 3), BlockPos::new(4, 66, 5));
    for snapshot in [
        WorldSnapshot::try_capture(&Floor, lo, hi).unwrap(),
        WorldSnapshot::capture(&Floor, lo, hi),
    ] {
        for x in -3..=5 {
            for y in 59..=67 {
                for z in 2..=6 {
                    let pos = BlockPos::new(x, y, z);
                    let inside = (-2..=4).contains(&x)
                        && (60..=66).contains(&y)
                        && (3..=5).contains(&z);
                    let expected = if inside {
                        Floor.block(pos)
                    } else {
                        BlockKind::Unloaded
                    };
                    assert_eq!(snapshot.block(pos), expected);
                }
            }
        }
        assert!(snapshot.standable(BlockPos::new(0, 64, 4)));
        assert!(!snapshot.standable(BlockPos::new(0, 65, 4)));
    }
    let too_large = WorldSnapshot::try_capture(
        &Floor,
        BlockPos::new(i32::MIN, i32::MIN, i32::MIN),
        BlockPos::new(i32::MAX, i32::MAX, i32::MAX),
    );
    let error = too_large.err().unwrap();
    assert_eq!(
        error,
        SnapshotError::TooLarge {
            blocks: u64::MAX,
            maximum: MAX_SNAPSHOT_BLOCKS
        }
    );
    assert_eq!(
        error.message(),
        format!("snapshot contains {} blocks; maximum is {MAX_SNAPSHOT_BLOCKS}", u64::MAX)
    );
}

#[test]
fn snapshot_indices_run_through_the_area_once() {
    let (lo, hi) = (BlockPos::new(1, 2, 3), BlockPos::new(2, 4, 4));
    let (size_y, size_z, total) = snapshot_shape(lo, hi).unwrap();
    assert_eq!((size_y, size_z, total), (3, 2, 12));
    let listed: Vec<BlockPos> = (0..total)
        .map(|index| snapshot_position(lo, size_y, size_z, index))
        .collect();
    assert_eq!(listed[0], lo);
    assert_eq!(listed[1], BlockPos::new(1, 3, 3));
    assert_eq!(listed[3], BlockPos::new(1, 2, 4));
    assert_eq!(listed[11], hi);
}

#[test]
fn a_snapshot_needs_exactly_its_volume() {
    let made = WorldSnapshot::from_blocks(
        BlockPos::new(0, 0, 0),
        BlockPos::new(1, 0, 0),
        vec![BlockKind::Air],
    );
    assert!(made.unwrap().is_none());
}
