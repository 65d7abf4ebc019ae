use std::sync::Arc;

use azalea_pathfinder::local::world::{offset, standable_by_blocks};
use azalea_pathfinder::pos_map::PosMap;
use azalea_pathfinder::resilience::overlay::MAX_OVERLAY_ENTRIES;
use azalea_pathfinder::resilience::scope::MAX_SCOPE_COMPONENT_BYTES;
use azalea_pathfinder::resilience::splice::MAX_STRUCTURAL_PATH_NODES;
use azalea_pathfinder::resilience::{
    splice_path_validated, structurally_join_paths, structurally_splice_path,
    transition_dependency_footprint, validate_structural_path, ChunkChange, ChunkChangeKind,
    ChunkColumn, DeadlockPolicy, DependencyFootprint, DependencyIndexError, DependencyOptions,
    DynamicObstacleOverlay, EdgeValidationError, EvictedObstacle, InvalidationError, ObstacleKind,
    ObstacleOwner, ObstaclePriority, OverlayApplyError, OverlayConfigError, OverlayEpoch,
    OverlayInsert, OverlayScopeMismatch, OverlayTimeError, PathDependencyIndex, PathEdgeValidator,
    PathSegment, PathSpliceError, RouteRevisions, WorldChangeBatch, WorldScope, WorldScopeError,
};
use azalea_pathfinder::{
    default_moves, find_path, BlockKind, BlockPos, Cost, LavaPolicy, MoveContext, MoveKind, Path,
    PathNode, WorldView, MAX_LAVA_SCAN_RADIUS,
};

fn scope(world: &str, dimension: &str) -> WorldScope {
    WorldScope::try_new(world, dimension).unwrap()
}

fn pos(x: i32, y: i32, z: i32) -> BlockPos {
    BlockPos::new(x, y, z)
}

fn node(x: i32, kind: MoveKind) -> PathNode {
    PathNode {
        pos: pos(x, 64, 0),
        reached_by: kind,
    }
}

fn path(xs: &[i32], cost: Cost) -> Path {
    Path {
        nodes: xs
            .iter()
            .enumerate()
            .map(|(index, x)| {
                node(
                    *x,
                    if index == 0 {
                        MoveKind::Start
                    } else {
                        MoveKind::Walk
                    },
                )
            })
            .collect(),
        total_cost: cost,
    }
}

const OWNER: ObstacleOwner = ObstacleOwner(10);

fn epoch(revision: u64) -> OverlayEpoch {
    OverlayEpoch {
        revision,
        valid_until_tick: None,
    }
}

fn revisions(path: u64, world: u64, cost: u64, overlay: u64) -> RouteRevisions {
    RouteRevisions {
        path,
        world_basis: world,
        cost_model: cost,
        dynamic_obstacles: epoch(overlay),
    }
}

fn batch<'a>(
    key: &'a WorldScope,
    revisions: RouteRevisions,
    blocks: &'a [BlockPos],
    chunks: &'a [ChunkChange],
) -> WorldChangeBatch<'a> {
    WorldChangeBatch {
        scope: key,
        path_revision: revisions.path,
        from_world_revision: revisions.world_basis,
        to_world_revision: revisions
            .world_basis
            .saturating_add(u64::from(!blocks.is_empty() || !chunks.is_empty())),
        current_cost_model: revisions.cost_model,
        current_dynamic_obstacles: revisions.dynamic_obstacles,
        now_tick: 0,
        changed_blocks: blocks,
        changed_chunks: chunks,
    }
}

struct TestValidator {
    scope: WorldScope,
    revisions: RouteRevisions,
    cost: Cost,
    validation_tick: u64,
    reject: Option<(BlockPos, BlockPos)>,
    calls: Vec<(BlockPos, BlockPos, MoveKind)>,
}

impl PathEdgeValidator for TestValidator {
    fn scope(&self) -> &WorldScope {
        &self.scope
    }

    fn revisions(&self) -> RouteRevisions {
        self.revisions
    }

    fn validation_tick(&self) -> u64 {
        self.validation_tick
    }

    fn validate_edge(
        &mut self,
        from: BlockPos,
        to: BlockPos,
        reached_by: MoveKind,
    ) -> Result<Cost, EdgeValidationError> {
        self.calls.push((from, to, reached_by));
        if self.reject == Some((from, to)) {
            Err(EdgeValidationError::Unsafe)
        } else {
            Ok(self.cost)
        }
    }
}

fn validator(key: &WorldScope, revisions: RouteRevisions, cost: Cost) -> TestValidator {
    TestValidator {
        scope: key.clone(),
        revisions,
        cost,
        validation_tick: 0,
        reject: None,
        calls: Vec::new(),
    }
}

struct EmptyWorld;

impl WorldView for EmptyWorld {
    fn block(&self, _pos: BlockPos) -> BlockKind {
        BlockKind::Air
    }

    fn standable(&self, pos: BlockPos) -> bool {
        standable_by_blocks(self, pos)
    }
}

struct OneWideCorridor;

impl WorldView for OneWideCorridor {
    fn block(&self, pos: BlockPos) -> BlockKind {
        if pos.z == 0 && (0..=2).contains(&pos.x) {
            if pos.y == 63 {
                BlockKind::Solid
            } else if (64..=67).contains(&pos.y) {
                BlockKind::Air
            } else {
                BlockKind::Solid
            }
        } else {
            BlockKind::Solid
        }
    }

    fn standable(&self, pos: BlockPos) -> bool {
        standable_by_blocks(self, pos)
    }
}

#[test]
fn scope_is_explicit_and_bounded() {
    let key = scope("example.org:25565", "minecraft:overworld");
    assert_eq!(key.world(), "example.org:25565");
    assert_eq!(key.dimension(), "minecraft:overworld");
    assert!(matches!(
        WorldScope::try_new("", "overworld"),
        Err(WorldScopeError::Empty("world"))
    ));
    assert!(matches!(
        WorldScope::try_new("world", "bad\nkey"),
        Err(WorldScopeError::ContainsControl("dimension"))
    ));
    assert!(matches!(
        WorldScope::try_new(&"x".repeat(MAX_SCOPE_COMPONENT_BYTES + 1), "overworld"),
        Err(WorldScopeError::TooLong { .. })
    ));
}

#[test]
fn overlay_expires_entries_and_never_exceeds_capacity() {
    let mut overlay = DynamicObstacleOverlay::try_new(scope("a", "overworld"), 2).unwrap();
    assert_eq!(overlay.revision(), 0);
    assert_eq!(
        overlay.insert(
            pos(1, 64, 0),
            OWNER,
            ObstacleKind::Hard,
            ObstaclePriority(ObstaclePriority::NORMAL),
            10,
            5
        ),
        OverlayInsert::Inserted { evicted: None }
    );
    assert_eq!(overlay.revision(), 1);
    assert_eq!(
        overlay.insert(
            pos(2, 64, 0),
            OWNER,
            ObstacleKind::Soft { penalty: 50 },
            ObstaclePriority(ObstaclePriority::NORMAL),
            10,
            5
        ),
        OverlayInsert::Inserted { evicted: None }
    );
    assert_eq!(overlay.advance_to(14), Ok(0));
    assert_eq!(overlay.active_len(), 2);
    assert_eq!(overlay.advance_to(15), Ok(2));
    assert_eq!(overlay.active_len(), 0);
    assert_eq!(overlay.retained_len(), 0);
    assert_eq!(overlay.revision(), 3);
}

#[test]
fn capacity_preserves_priority_and_evicts_oldest_peer() {
    let mut overlay = DynamicObstacleOverlay::try_new(scope("a", "overworld"), 2).unwrap();
    let critical = pos(1, 64, 0);
    let old_normal = pos(2, 64, 0);
    let new_normal = pos(3, 64, 0);
    overlay.insert(
        critical,
        OWNER,
        ObstacleKind::Hard,
        ObstaclePriority(ObstaclePriority::CRITICAL),
        0,
        100,
    );
    overlay.insert(
        old_normal,
        OWNER,
        ObstacleKind::Hard,
        ObstaclePriority(ObstaclePriority::NORMAL),
        0,
        100,
    );
    assert_eq!(
        overlay.insert(
            pos(4, 64, 0),
            OWNER,
            ObstacleKind::Hard,
            ObstaclePriority(ObstaclePriority::BACKGROUND),
            0,
            100
        ),
        OverlayInsert::RejectedCapacity
    );
    assert_eq!(
        overlay.insert(
            new_normal,
            OWNER,
            ObstacleKind::Hard,
            ObstaclePriority(ObstaclePriority::NORMAL),
            0,
            100
        ),
        OverlayInsert::Inserted {
            evicted: Some(EvictedObstacle {
                pos: old_normal,
                owner: OWNER,
            })
        }
    );
    assert!(overlay.get(critical).is_some());
    assert!(overlay.get(old_normal).is_none());
    assert!(overlay.get(new_normal).is_some());
    assert_eq!(overlay.retained_len(), 2);
}

#[test]
fn same_position_requires_equal_or_higher_priority() {
    let target = pos(1, 64, 0);
    let mut overlay = DynamicObstacleOverlay::try_new(scope("a", "overworld"), 1).unwrap();
    overlay.insert(
        target,
        OWNER,
        ObstacleKind::Hard,
        ObstaclePriority(ObstaclePriority::CRITICAL),
        0,
        10,
    );
    assert_eq!(
        overlay.insert(
            target,
            OWNER,
            ObstacleKind::Soft { penalty: 10 },
            ObstaclePriority(ObstaclePriority::NORMAL),
            1,
            10
        ),
        OverlayInsert::RejectedLowerPriority
    );
    assert_eq!(overlay.get(target).unwrap().kind(), ObstacleKind::Hard);
    assert_eq!(
        overlay.insert(
            target,
            OWNER,
            ObstacleKind::Soft { penalty: 20 },
            ObstaclePriority(ObstaclePriority::CRITICAL),
            1,
            10
        ),
        OverlayInsert::RejectedHardDowngrade
    );
    assert_eq!(
        overlay.insert(
            target,
            ObstacleOwner(11),
            ObstacleKind::Hard,
            ObstaclePriority(ObstaclePriority::CRITICAL),
            1,
            10
        ),
        OverlayInsert::RejectedOwnedByPeer
    );
}

#[test]
fn invalid_ttls_and_zero_soft_penalties_are_rejected() {
    let mut overlay = DynamicObstacleOverlay::try_new(scope("a", "overworld"), 1).unwrap();
    assert_eq!(
        overlay.insert(
            pos(0, 0, 0),
            OWNER,
            ObstacleKind::Hard,
            ObstaclePriority(ObstaclePriority::NORMAL),
            0,
            0
        ),
        OverlayInsert::RejectedInvalidTtl
    );
    assert_eq!(
        overlay.insert(
            pos(0, 0, 0),
            OWNER,
            ObstacleKind::Soft { penalty: 0 },
            ObstaclePriority(ObstaclePriority::NORMAL),
            0,
            1
        ),
        OverlayInsert::RejectedZeroPenalty
    );
    assert_eq!(
        overlay.insert(
            pos(0, 0, 0),
            OWNER,
            ObstacleKind::Hard,
            ObstaclePriority(ObstaclePriority::NORMAL),
            u64::MAX,
            1
        ),
        OverlayInsert::RejectedInvalidTtl
    );
}

#[test]
fn apply_clones_context_and_combines_soft_costs_without_mutation() {
    let key = scope("a", "overworld");
    let soft = pos(1, 64, 0);
    let hard = pos(2, 64, 0);
    let mut overlay = DynamicObstacleOverlay::try_new(key.clone(), 2).unwrap();
    overlay.insert(
        soft,
        OWNER,
        ObstacleKind::Soft { penalty: 30 },
        ObstaclePriority(ObstaclePriority::NORMAL),
        0,
        10,
    );
    overlay.insert(
        hard,
        OWNER,
        ObstacleKind::Hard,
        ObstaclePriority(ObstaclePriority::NORMAL),
        0,
        10,
    );
    let mut original_avoid = PosMap::new();
    original_avoid.insert(soft, 7);
    let input = MoveContext {
        avoid: Arc::new(original_avoid),
        ..MoveContext::default()
    };
    let applied = overlay.apply(&key, 1, None, &EmptyWorld, &input).unwrap();
    assert_eq!(input.avoid.get(soft), Some(&7));
    assert_eq!(input.avoid.get(hard), None);
    assert_eq!(applied.context().avoid.get(soft), Some(&37));
    assert_eq!(applied.context().avoid.get(hard), Some(&Cost::MAX));
    assert_eq!(applied.block(hard), BlockKind::Fence);
    assert_eq!(applied.block(soft), BlockKind::Air);
    assert!(applied.is_hard(hard));
    assert!(!applied.standable(hard));
    assert!(!applied.standable(offset(hard, 0, 1, 0)));
    assert_eq!(applied.overlay_epoch().revision, overlay.revision());
}

#[test]
fn hard_obstacle_cannot_be_used_as_a_floor_or_crossed_by_builtin_moves() {
    let key = scope("a", "overworld");
    let occupied = pos(1, 64, 0);
    let mut overlay = DynamicObstacleOverlay::try_new(key.clone(), 1).unwrap();
    overlay.insert(
        occupied,
        OWNER,
        ObstacleKind::Hard,
        ObstaclePriority(ObstaclePriority::NORMAL),
        0,
        20,
    );
    let input = MoveContext {
        goal_tolerance: 0,
        ..MoveContext::default()
    };
    let applied = overlay
        .apply(&key, 1, None, &OneWideCorridor, &input)
        .unwrap();
    assert!(!applied.standable(occupied));
    assert!(!applied.standable(offset(occupied, 0, 1, 0)));
    assert!(
        find_path(
            &applied,
            pos(0, 64, 0),
            pos(2, 64, 0),
            &default_moves(),
            applied.context(),
        )
        .is_err()
    );
}

#[test]
fn apply_rejects_cross_dimension_data() {
    let key = scope("a", "overworld");
    let mut overlay = DynamicObstacleOverlay::try_new(key, 1).unwrap();
    let error = overlay
        .apply(
            &scope("a", "the_nether"),
            0,
            None,
            &EmptyWorld,
            &MoveContext::default(),
        )
        .err()
        .expect("scope mismatch");
    assert!(matches!(
        error,
        OverlayApplyError::Scope(OverlayScopeMismatch { actual, .. })
            if actual.dimension() == "the_nether"
    ));
}

#[test]
fn overlay_epoch_expires_and_advances_observable_revision() {
    let key = scope("a", "overworld");
    let target = pos(0, 64, 0);
    let mut overlay = DynamicObstacleOverlay::try_new(key.clone(), 1).unwrap();
    overlay.insert(
        target,
        OWNER,
        ObstacleKind::Hard,
        ObstaclePriority(ObstaclePriority::NORMAL),
        10,
        5,
    );
    let before = overlay
        .apply(&key, 14, None, &EmptyWorld, &MoveContext::default())
        .unwrap();
    assert!(before.is_hard(target));
    assert_eq!(before.overlay_epoch().valid_until_tick, Some(15));
    let before_revision = before.overlay_epoch().revision;

    let after = overlay
        .apply(&key, 15, None, &EmptyWorld, &MoveContext::default())
        .unwrap();
    assert!(!after.is_hard(target));
    assert!(after.overlay_epoch().revision > before_revision);
    assert_eq!(overlay.retained_len(), 0);
}

#[test]
fn owners_self_exclude_and_deadlocks_degrade_deterministically() {
    let key = scope("a", "overworld");
    let target = pos(0, 64, 0);
    let policy = DeadlockPolicy {
        max_hard_ticks: 5,
        yielded_soft_penalty: 777,
    };
    let mut overlay =
        DynamicObstacleOverlay::try_new_with_policy(key.clone(), 1, policy).unwrap();
    overlay.insert(
        target,
        OWNER,
        ObstacleKind::Hard,
        ObstaclePriority(ObstaclePriority::NORMAL),
        0,
        20,
    );

    let own = overlay
        .apply(&key, 1, Some(OWNER), &EmptyWorld, &MoveContext::default())
        .unwrap();
    assert!(!own.is_hard(target));
    assert_eq!(own.context().avoid.get(target), None);

    // Lower owner ID has deterministic right of way and sees a soft toll.
    let precedence = overlay
        .apply(
            &key,
            1,
            Some(ObstacleOwner(5)),
            &EmptyWorld,
            &MoveContext::default(),
        )
        .unwrap();
    assert!(!precedence.is_hard(target));
    assert_eq!(precedence.context().avoid.get(target), Some(&777));

    let yielding = overlay
        .apply(
            &key,
            1,
            Some(ObstacleOwner(20)),
            &EmptyWorld,
            &MoveContext::default(),
        )
        .unwrap();
    assert!(yielding.is_hard(target));

    let timed_out = overlay
        .apply(
            &key,
            5,
            Some(ObstacleOwner(20)),
            &EmptyWorld,
            &MoveContext::default(),
        )
        .unwrap();
    assert!(!timed_out.is_hard(target));
    assert_eq!(timed_out.context().avoid.get(target), Some(&777));
    assert_eq!(
        overlay.insert(
            pos(1, 64, 0),
            OWNER,
            ObstacleKind::Hard,
            ObstaclePriority(ObstaclePriority::NORMAL),
            4,
            10
        ),
        OverlayInsert::RejectedClockRegression
    );
}

#[test]
fn footprints_cover_support_head_corners_arc_landing_climb_and_hazards() {
    let diagonal = transition_dependency_footprint(
        0,
        pos(0, 64, 0),
        pos(1, 64, 1),
        MoveKind::Walk,
        DependencyOptions {
            hazard_radius: 2,
            ..DependencyOptions::default()
        },
    );
    assert!(diagonal.contains(pos(0, 63, 0)), "start support");
    assert!(diagonal.contains(pos(1, 65, 1)), "landing head");
    assert!(diagonal.contains(pos(1, 64, 0)), "diagonal corner");
    assert!(diagonal.contains(pos(0, 64, 1)), "other diagonal corner");
    assert!(diagonal.contains(pos(3, 64, 1)), "hazard radius");
    assert!(diagonal.contains(pos(2, 63, 1)), "landing neighborhood");

    let jump = transition_dependency_footprint(
        0,
        pos(0, 64, 0),
        pos(1, 65, 0),
        MoveKind::Jump,
        DependencyOptions {
            hazard_radius: 0,
            ..DependencyOptions::default()
        },
    );
    assert!(jump.contains(pos(0, 67, 0)), "jump arc headroom");

    let climb = transition_dependency_footprint(
        1,
        pos(5, 64, 5),
        pos(5, 65, 5),
        MoveKind::Climb,
        DependencyOptions {
            hazard_radius: 0,
            ..DependencyOptions::default()
        },
    );
    assert!(climb.contains(pos(6, 65, 5)), "ladder attachment");

    let swim = transition_dependency_footprint(
        2,
        pos(8, 64, 8),
        pos(8, 64, 9),
        MoveKind::Swim,
        DependencyOptions {
            hazard_radius: 0,
            local_neighborhood_radius: 0,
            ..DependencyOptions::default()
        },
    );
    assert!(swim.contains(pos(9, 64, 8)), "water neighborhood");

    let descending_parkour = transition_dependency_footprint(
        3,
        pos(0, 70, 0),
        pos(3, 60, 0),
        MoveKind::Parkour {
            blocks: 3,
            rise: -10,
        },
        DependencyOptions {
            hazard_radius: 0,
            local_neighborhood_radius: 0,
            ..DependencyOptions::default()
        },
    );
    assert!(
        descending_parkour.contains(pos(-2, 69, 0)),
        "two-block run-up"
    );
    assert!(
        descending_parkour.contains(pos(1, 61, 0)),
        "full descending arc corridor"
    );

    let fall = transition_dependency_footprint(
        4,
        pos(0, 70, 0),
        pos(1, 60, 0),
        MoveKind::Fall,
        DependencyOptions {
            hazard_radius: 0,
            local_neighborhood_radius: 0,
            ..DependencyOptions::default()
        },
    );
    assert!(
        fall.contains(pos(1, 65, 0)),
        "fall must track the landing column"
    );
}

#[test]
fn oversized_or_long_range_footprints_fail_safe_to_broad() {
    let bounded = transition_dependency_footprint(
        0,
        pos(0, 64, 0),
        pos(1, 64, 0),
        MoveKind::Walk,
        DependencyOptions {
            hazard_radius: MAX_LAVA_SCAN_RADIUS,
            max_blocks_per_edge: 8,
            ..DependencyOptions::default()
        },
    );
    assert!(bounded.invalidates_on_any_change());
    assert!(bounded.blocks().len() <= 8);

    let long = transition_dependency_footprint(
        0,
        pos(0, 64, 0),
        pos(1_000, 64, 0),
        MoveKind::Aotv,
        DependencyOptions::default(),
    );
    assert!(long.invalidates_on_any_change());

    let generated = DependencyFootprint::from_generator_blocks(
        0,
        pos(0, 64, 0),
        pos(1, 64, 0),
        &[pos(0, 63, 0), pos(1, 63, 0)],
    );
    assert!(!generated.invalidates_on_any_change());
    assert!(generated.contains(pos(1, 63, 0)));
    let empty = DependencyFootprint::from_generator_blocks(0, pos(0, 64, 0), pos(1, 64, 0), &[]);
    assert!(empty.invalidates_on_any_change());
}

#[test]
fn invalidation_returns_earliest_edge_and_ignores_unrelated_changes() {
    let key = scope("a", "overworld");
    let revisions = revisions(4, 7, 9, 2);
    let route = path(&[0, 1, 2], 20);
    let first = DependencyFootprint {
        edge_index: 0,
        from: pos(0, 64, 0),
        to: pos(1, 64, 0),
        blocks: vec![pos(10, 64, 0)],
        invalidate_on_any_change: false,
    };
    let second = DependencyFootprint {
        edge_index: 1,
        from: pos(1, 64, 0),
        to: pos(2, 64, 0),
        blocks: vec![pos(10, 64, 0), pos(20, 64, 0)],
        invalidate_on_any_change: false,
    };
    let mut index =
        PathDependencyIndex::from_footprints(&route, key.clone(), revisions, &[first, second])
            .unwrap();
    let second_only = [pos(20, 64, 0)];
    assert_eq!(
        index
            .earliest_affected(&batch(&key, revisions, &second_only, &[]))
            .unwrap(),
        Some(1)
    );
    let shared = [pos(10, 64, 0)];
    assert_eq!(
        index
            .earliest_affected(&batch(&key, revisions, &shared, &[]))
            .unwrap(),
        Some(0)
    );
    let unrelated = [pos(999, 64, 0)];
    assert_eq!(
        index
            .earliest_affected(&batch(&key, revisions, &unrelated, &[]))
            .unwrap(),
        None
    );
    let advanced = index.revisions();
    assert_eq!(
        index
            .earliest_affected(&batch(&key, advanced, &[], &[]))
            .unwrap(),
        None
    );
    let next_basis = index.revisions();
    let second_unrelated = [pos(-999, 70, -999)];
    assert_eq!(
        index
            .earliest_affected(&batch(&key, next_basis, &second_unrelated, &[]))
            .unwrap(),
        None
    );
    assert_eq!(index.revisions().world_basis, next_basis.world_basis + 1);
}

#[test]
fn invalidation_rejects_scope_and_revision_mismatches() {
    let key = scope("a", "overworld");
    let revisions = revisions(1, 2, 3, 4);
    let route = path(&[0, 1], 10);
    let mut index = PathDependencyIndex::build_unknown(&route, key.clone(), revisions);
    let other_scope = scope("a", "nether");
    let other_batch = batch(&other_scope, revisions, &[], &[]);
    assert!(matches!(
        index.earliest_affected(&other_batch),
        Err(InvalidationError::ScopeMismatch { .. })
    ));
    let mut wrong_path = batch(&key, revisions, &[], &[]);
    wrong_path.path_revision = 9;
    assert!(matches!(
        index.earliest_affected(&wrong_path),
        Err(InvalidationError::PathRevisionMismatch { .. })
    ));
    let mut wrong_basis = batch(&key, revisions, &[], &[]);
    wrong_basis.from_world_revision = 1;
    assert!(matches!(
        index.earliest_affected(&wrong_basis),
        Err(InvalidationError::WorldContinuityMismatch { .. })
    ));

    let mut changed_cost = batch(&key, revisions, &[], &[]);
    changed_cost.current_cost_model += 1;
    assert_eq!(index.earliest_affected(&changed_cost).unwrap(), Some(0));

    let changed = [pos(0, 64, 0)];
    let mut missing_revision = batch(&key, revisions, &changed, &[]);
    missing_revision.to_world_revision = missing_revision.from_world_revision;
    assert!(matches!(
        index.earliest_affected(&missing_revision),
        Err(InvalidationError::WorldChangeWithoutRevision { .. })
    ));
}

#[test]
fn broad_dependency_invalidates_on_any_nonempty_change() {
    let key = scope("a", "overworld");
    let revisions = revisions(1, 1, 1, 1);
    let route = path(&[0, 1, 2, 3], 30);
    let first = DependencyFootprint {
        edge_index: 0,
        from: route.nodes[0].pos,
        to: route.nodes[1].pos,
        blocks: vec![pos(10, 0, 0)],
        invalidate_on_any_change: false,
    };
    let second = DependencyFootprint {
        edge_index: 1,
        from: route.nodes[1].pos,
        to: route.nodes[2].pos,
        blocks: vec![pos(20, 0, 0)],
        invalidate_on_any_change: false,
    };
    let broad = DependencyFootprint {
        edge_index: 2,
        from: route.nodes[2].pos,
        to: route.nodes[3].pos,
        blocks: vec![],
        invalidate_on_any_change: true,
    };
    let mut index = PathDependencyIndex::from_footprints(
        &route,
        key.clone(),
        revisions,
        &[first, second, broad],
    )
    .unwrap();
    let unrelated = [pos(-999, 5, 42)];
    assert_eq!(
        index
            .earliest_affected(&batch(&key, revisions, &unrelated, &[]))
            .unwrap(),
        Some(2)
    );
    assert_eq!(
        index
            .earliest_affected(&batch(&key, revisions, &[], &[]))
            .unwrap(),
        None
    );
}

#[test]
fn dependency_index_built_from_path_catches_support_and_ignores_far_block() {
    let route = path(&[0, 1, 2], 20);
    let key = scope("a", "overworld");
    let revisions = revisions(1, 1, 1, 1);
    let ctx = MoveContext {
        lava_policy: LavaPolicy::Penalized,
        lava_proximity_radius: 0,
        ..MoveContext::default()
    };
    let mut index = PathDependencyIndex::build_builtin(&route, key.clone(), revisions, &ctx);
    let support = [pos(1, 63, 0)];
    assert_eq!(
        index
            .earliest_affected(&batch(&key, revisions, &support, &[]))
            .unwrap(),
        Some(0)
    );
    let far = [pos(100, 64, 100)];
    assert_eq!(
        index
            .earliest_affected(&batch(&key, revisions, &far, &[]))
            .unwrap(),
        None
    );

    let loaded = [ChunkChange {
        column: ChunkColumn::containing(pos(1, 64, 0)),
        kind: ChunkChangeKind::Loaded,
    }];
    let advanced = index.revisions();
    assert_eq!(
        index
            .earliest_affected(&batch(&key, advanced, &[], &loaded))
            .unwrap(),
        Some(0)
    );
}

#[test]
fn missing_or_endpoint_mismatched_footprints_fail_broad() {
    let route = path(&[0, 1, 2], 20);
    let key = scope("a", "overworld");
    let revisions = revisions(1, 1, 1, 1);
    let edge_zero = DependencyFootprint {
        edge_index: 0,
        from: route.nodes[0].pos,
        to: route.nodes[1].pos,
        blocks: vec![pos(10, 64, 0)],
        invalidate_on_any_change: false,
    };
    let mut incomplete = PathDependencyIndex::from_footprints(
        &route,
        key.clone(),
        revisions,
        std::slice::from_ref(&edge_zero),
    )
    .unwrap();
    let unrelated = [pos(999, 64, 999)];
    assert_eq!(
        incomplete
            .earliest_affected(&batch(&key, revisions, &unrelated, &[]))
            .unwrap(),
        Some(1)
    );

    let wrong_endpoint = DependencyFootprint {
        to: pos(99, 64, 0),
        ..edge_zero
    };
    let mut mismatched =
        PathDependencyIndex::from_footprints(&route, key.clone(), revisions, &[wrong_endpoint])
            .unwrap();
    assert_eq!(
        mismatched
            .earliest_affected(&batch(&key, revisions, &unrelated, &[]))
            .unwrap(),
        Some(0)
    );
}

#[test]
fn unknown_and_teleport_paths_are_broad_and_short_circuit_work() {
    let key = scope("a", "overworld");
    let revisions = revisions(1, 1, 1, 1);
    let custom = path(&[0, 1, 2, 3], 30);
    let unknown = PathDependencyIndex::build_unknown(&custom, key.clone(), revisions);
    assert_eq!(unknown.indexed_blocks(), 0);

    let mut teleport_nodes = Vec::with_capacity(10_001);
    teleport_nodes.push(node(0, MoveKind::Start));
    teleport_nodes.push(node(50, MoveKind::Aotv));
    for x in 51..=10_049 {
        teleport_nodes.push(node(x, MoveKind::Walk));
    }
    let teleport = Path {
        nodes: teleport_nodes,
        total_cost: 10,
    };
    let mut inferred = PathDependencyIndex::build_builtin(
        &teleport,
        key.clone(),
        revisions,
        &MoveContext::default(),
    );
    assert_eq!(inferred.edge_count(), 10_000);
    assert_eq!(inferred.indexed_blocks(), 0);
    let far = [pos(-10_000, 5, 10_000)];
    assert_eq!(
        inferred
            .earliest_affected(&batch(&key, revisions, &far, &[]))
            .unwrap(),
        Some(0)
    );
}

#[test]
fn overlay_expiry_and_unexplained_world_revision_invalidate_from_start() {
    let key = scope("a", "overworld");
    let mut revisions = revisions(1, 7, 1, 1);
    revisions.dynamic_obstacles.valid_until_tick = Some(20);
    let route = path(&[0, 1], 10);
    let mut index = PathDependencyIndex::build_unknown(&route, key.clone(), revisions);

    let mut expired = batch(&key, revisions, &[], &[]);
    expired.now_tick = 20;
    assert_eq!(index.earliest_affected(&expired).unwrap(), Some(0));

    let mut unspecified = batch(&key, revisions, &[], &[]);
    unspecified.to_world_revision += 1;
    assert_eq!(index.earliest_affected(&unspecified).unwrap(), Some(0));
}

#[test]
fn complete_paths_join_only_at_matching_endpoints() {
    let first = path(&[0, 1, 2], 20);
    let second = path(&[2, 3, 4], 30);
    let joined = structurally_join_paths(&[&first, &second]).unwrap();
    assert_eq!(
        joined
            .nodes()
            .iter()
            .map(|node| node.pos.x)
            .collect::<Vec<_>>(),
        vec![0, 1, 2, 3, 4]
    );

    let mismatch = path(&[9, 10], 10);
    assert!(matches!(
        structurally_join_paths(&[&first, &mismatch]),
        Err(PathSpliceError::EndpointMismatch { .. })
    ));
}

#[test]
fn splice_revalidates_every_edge_and_regenerates_exact_cost() {
    let original = path(&[0, 1, 2, 3, 4], 40);
    let patch = path(&[1, 8, 9, 3], 25);
    let key = scope("a", "overworld");
    let revisions = revisions(1, 1, 1, 1);
    let mut edge_validator = validator(&key, revisions, 7);
    let spliced = splice_path_validated(
        &original,
        1,
        3,
        &patch,
        &key,
        revisions,
        &mut edge_validator,
    )
    .unwrap();
    assert_eq!(
        spliced
            .path()
            .nodes
            .iter()
            .map(|node| node.pos.x)
            .collect::<Vec<_>>(),
        vec![0, 1, 8, 9, 3, 4]
    );
    assert_eq!(spliced.path().total_cost, 35);
    assert_eq!(edge_validator.calls.len(), 5);
    assert_eq!(spliced.path().nodes[0].reached_by, MoveKind::Start);

    assert!(matches!(
        structurally_splice_path(&original, 1, 3, &path(&[2, 8, 3], 10)),
        Err(PathSpliceError::EndpointMismatch { .. })
    ));
    assert!(matches!(
        structurally_splice_path(&original, 3, 1, &patch),
        Err(PathSpliceError::InvalidRange { .. })
    ));

    let mut rejecting = validator(&key, revisions, 1);
    rejecting.reject = Some((pos(8, 64, 0), pos(9, 64, 0)));
    assert!(matches!(
        splice_path_validated(&original, 1, 3, &patch, &key, revisions, &mut rejecting),
        Err(PathSpliceError::EdgeRejected {
            reason: EdgeValidationError::Unsafe,
            ..
        })
    ));
}

#[test]
fn malformed_paths_scope_revisions_and_cost_overflow_are_rejected() {
    let malformed = Path {
        nodes: vec![node(0, MoveKind::Walk), node(1, MoveKind::Walk)],
        total_cost: 10,
    };
    assert!(matches!(
        structurally_join_paths(&[&malformed]),
        Err(PathSpliceError::InvalidStartMarker { .. })
    ));
    let embedded = Path {
        nodes: vec![node(0, MoveKind::Start), node(1, MoveKind::Start)],
        total_cost: 10,
    };
    assert!(matches!(
        structurally_join_paths(&[&embedded]),
        Err(PathSpliceError::EmbeddedStart { .. })
    ));

    let key = scope("a", "overworld");
    let revisions = revisions(1, 1, 1, 1);
    let structural = structurally_join_paths(&[&path(&[0, 1], 0), &path(&[1, 2], 0)]).unwrap();
    let mut expensive = validator(&key, revisions, Cost::MAX);
    assert!(matches!(
        validate_structural_path(structural, &key, revisions, &mut expensive),
        Err(PathSpliceError::CostOverflow)
    ));

    let structural = structurally_join_paths(&[&path(&[0, 1], 0)]).unwrap();
    let mut wrong_scope = validator(&scope("b", "overworld"), revisions, 1);
    assert!(matches!(
        validate_structural_path(structural, &key, revisions, &mut wrong_scope),
        Err(PathSpliceError::ValidatorScopeMismatch { .. })
    ));

    let structural = structurally_join_paths(&[&path(&[0, 1], 0)]).unwrap();
    let mut wrong_revision = validator(
        &key,
        RouteRevisions {
            cost_model: 2,
            ..revisions
        },
        1,
    );
    assert!(matches!(
        validate_structural_path(structural, &key, revisions, &mut wrong_revision),
        Err(PathSpliceError::ValidatorRevisionMismatch { .. })
    ));

    let mut expiring_revisions = revisions;
    expiring_revisions.dynamic_obstacles.valid_until_tick = Some(5);
    let structural = structurally_join_paths(&[&path(&[0, 1], 0)]).unwrap();
    let mut expired_validator = validator(&key, expiring_revisions, 1);
    expired_validator.validation_tick = 5;
    assert!(matches!(
        validate_structural_path(structural, &key, expiring_revisions, &mut expired_validator),
        Err(PathSpliceError::ValidatorEpochExpired { .. })
    ));

    let single = path(&[0], 999);
    let structural = structurally_join_paths(&[&single]).unwrap();
    let mut no_edges = validator(&key, revisions, 7);
    let validated =
        validate_structural_path(structural, &key, revisions, &mut no_edges).unwrap();
    assert_eq!(validated.path().total_cost, 0);
}

#[test]
fn configuration_errors_name_what_is_wrong() {
    let key = scope("a", "overworld");
    let error = DynamicObstacleOverlay::try_new(key.clone(), 0).err().unwrap();
    assert_eq!(
        error,
        OverlayConfigError::InvalidCapacity {
            capacity: 0,
            maximum: MAX_OVERLAY_ENTRIES
        }
    );
    assert_eq!(error.message(), "overlay capacity is 0; expected 1..=16384");
    assert!(DynamicObstacleOverlay::try_new(key.clone(), MAX_OVERLAY_ENTRIES + 1).is_err());
    let error = DynamicObstacleOverlay::try_new_with_policy(
        key,
        1,
        DeadlockPolicy {
            max_hard_ticks: 0,
            yielded_soft_penalty: 1,
        },
    )
    .err()
    .unwrap();
    assert_eq!(error, OverlayConfigError::InvalidDeadlockPolicy);
    assert_eq!(
        error.message(),
        "deadlock policy requires a nonzero hard timeout and soft penalty"
    );
}

#[test]
fn a_reservation_is_removed_by_its_owner_only() {
    let mut overlay = DynamicObstacleOverlay::try_new(scope("a", "overworld"), 2).unwrap();
    let at = pos(3, 64, 3);
    overlay.insert(
        at,
        OWNER,
        ObstacleKind::Hard,
        ObstaclePriority(ObstaclePriority::NORMAL),
        1,
        10,
    );
    assert_eq!(overlay.remove_owned(at, ObstacleOwner(11)), Ok(None));
    assert_eq!(overlay.revision(), 1);
    let removed = overlay.remove_owned(at, OWNER).unwrap().unwrap();
    assert_eq!((removed.owner(), removed.expires_at_tick()), (OWNER, 11));
    assert_eq!(overlay.revision(), 2);
    assert!(overlay.get(at).is_none());
    assert_eq!(overlay.advance_to(0).unwrap_err().message(), "overlay clock regressed from tick 1 to 0");
}

#[test]
fn times_and_scopes_are_reported_in_full() {
    assert_eq!(
        OverlayTimeError::RevisionExhausted.message(),
        "overlay revision space is exhausted"
    );
    let key = scope("a", "overworld");
    let mut overlay = DynamicObstacleOverlay::try_new(key, 1).unwrap();
    let error = overlay
        .apply(
            &scope("b", "the_end"),
            0,
            None,
            &EmptyWorld,
            &MoveContext::default(),
        )
        .err()
        .unwrap();
    assert_eq!(
        error.message(),
        "overlay belongs to a/overworld but b/the_end was requested"
    );
    assert_eq!(
        WorldScope::try_new("", "x").err().unwrap().message(),
        "world scope component is empty"
    );
    assert_eq!(
        WorldScope::try_new("x", &"y".repeat(129)).err().unwrap().message(),
        "dimension scope component is 129 bytes; maximum is 128"
    );
    assert_eq!(
        WorldScope::try_new("x", "y\u{7f}").err().unwrap().message(),
        "dimension scope component contains a control character"
    );
}

#[test]
fn a_footprint_of_an_edge_the_path_lacks_is_refused() {
    let footprint = DependencyFootprint::broad(1, pos(0, 64, 0), pos(1, 64, 0));
    let error = PathDependencyIndex::from_footprints(
        &path(&[0, 1], 10),
        scope("a", "overworld"),
        revisions(1, 1, 1, 1),
        &[footprint],
    )
    .err()
    .unwrap();
    assert_eq!(
        error,
        DependencyIndexError::EdgeOutOfRange {
            edge: 1,
            edge_count: 1
        }
    );
    assert_eq!(
        error.message(),
        "dependency edge 1 is outside 1 path edges"
    );
}

#[test]
fn world_revisions_never_regress() {
    let key = scope("a", "overworld");
    let basis = revisions(1, 5, 1, 1);
    let mut index = PathDependencyIndex::build_unknown(&path(&[0, 1], 10), key.clone(), basis);
    let mut regressed = batch(&key, basis, &[], &[]);
    regressed.to_world_revision = 4;
    let error = index.earliest_affected(&regressed).unwrap_err();
    assert_eq!(
        error,
        InvalidationError::WorldRevisionRegressed { from: 5, to: 4 }
    );
    assert_eq!(
        error.message(),
        "world change interval regresses from 5 to 4"
    );
    assert_eq!(index.revisions(), basis);
}

#[test]
fn a_needed_block_and_its_chunk_are_reported() {
    let route = path(&[0, 1, 2], 20);
    let key = scope("a", "overworld");
    let basis = revisions(1, 1, 1, 1);
    let ctx = MoveContext {
        lava_policy: LavaPolicy::Penalized,
        lava_proximity_radius: 0,
        ..MoveContext::default()
    };
    for (index, edge) in [(0, pos(0, 64, 0)), (1, pos(2, 64, 0))] {
        let mut fresh = PathDependencyIndex::build_builtin(&route, key.clone(), basis, &ctx);
        let affected = fresh
            .earliest_affected(&batch(&key, basis, &[edge], &[]))
            .unwrap();
        assert!(affected.is_some_and(|first| first <= index));
        let mut fresh = PathDependencyIndex::build_builtin(&route, key.clone(), basis, &ctx);
        let unloaded = [ChunkChange {
            column: ChunkColumn::containing(edge),
            kind: ChunkChangeKind::Unloaded,
        }];
        assert!(fresh
            .earliest_affected(&batch(&key, basis, &[], &unloaded))
            .unwrap()
            .is_some());
    }
    assert_eq!(
        ChunkColumn::containing(pos(-1, 0, 16)),
        ChunkColumn { x: -1, z: 1 }
    );
}

#[test]
fn splice_errors_say_where_and_why() {
    let original = path(&[0, 1, 2], 20);
    assert!(matches!(
        structurally_join_paths(&[]),
        Err(PathSpliceError::NoSegments)
    ));
    assert_eq!(
        PathSpliceError::NoSegments.message(),
        "no complete paths were supplied"
    );
    let empty = Path {
        nodes: Vec::new(),
        total_cost: 0,
    };
    let error = structurally_join_paths(&[&original, &empty]).err().unwrap();
    assert_eq!(
        error,
        PathSpliceError::Empty {
            segment: PathSegment::Joined(1)
        }
    );
    assert_eq!(error.message(), "Joined(1) path is empty");
    let error = structurally_splice_path(&original, 2, 5, &path(&[2, 3], 10))
        .err()
        .unwrap();
    assert_eq!(
        error,
        PathSpliceError::InvalidRange {
            start_node: 2,
            end_node: 5,
            node_count: 3
        }
    );
    assert_eq!(error.message(), "splice range 2..=5 is invalid for 3 nodes");
    let error = structurally_splice_path(&original, 0, 2, &path(&[0], 10))
        .err()
        .unwrap();
    assert_eq!(error, PathSpliceError::PatchHasNoEdge);
    assert_eq!(error.message(), "patch must contain at least one edge");
    let error = structurally_splice_path(&original, 0, 2, &path(&[0, 9], 10))
        .err()
        .unwrap();
    assert_eq!(
        error.message(),
        "Patch path endpoint mismatch: expected BlockPos { x: 2, y: 64, z: 0 }, got BlockPos { x: 9, y: 64, z: 0 }"
    );
    let mut wrong = revisions(1, 2, 3, 4);
    wrong.dynamic_obstacles.valid_until_tick = Some(9);
    assert_eq!(
        PathSpliceError::ValidatorRevisionMismatch {
            expected: revisions(1, 2, 3, 4),
            actual: wrong,
        }
        .message(),
        format!("validator revisions are {wrong:?}; expected {:?}", revisions(1, 2, 3, 4))
    );
    assert_eq!(
        PathSpliceError::TooManyNodes {
            nodes: MAX_STRUCTURAL_PATH_NODES + 1,
            maximum: MAX_STRUCTURAL_PATH_NODES
        }
        .message(),
        "structural path has 1000001 nodes; maximum is 1000000"
    );
}

#[test]
fn a_long_join_is_refused_before_it_is_made() {
    let steps: Vec<i32> = (0..=(MAX_STRUCTURAL_PATH_NODES as i32)).collect();
    let error = structurally_join_paths(&[&path(&steps, 0)]).err().unwrap();
    assert_eq!(
        error,
        PathSpliceError::TooManyNodes {
            nodes: MAX_STRUCTURAL_PATH_NODES + 1,
            maximum: MAX_STRUCTURAL_PATH_NODES
        }
    );
}

#[test]
fn hard_obstacles_are_counted_once_per_block() {
    let key = scope("a", "overworld");
    let mut overlay = DynamicObstacleOverlay::try_new(key.clone(), 4).unwrap();
    for x in [1, 2, 2] {
        overlay.insert(
            pos(x, 64, 0),
            OWNER,
            ObstacleKind::Hard,
            ObstaclePriority(ObstaclePriority::NORMAL),
            0,
            10,
        );
    }
    let input = MoveContext::default();
    let applied = overlay.apply(&key, 1, None, &EmptyWorld, &input).unwrap();
    assert_eq!(applied.hard_len(), 2);
    assert!(applied.is_hard(pos(1, 64, 0)));
    assert!(!applied.is_hard(pos(3, 64, 0)));
}

#[test]
fn bounded_footprints_keep_their_first_cells() {
    let options = DependencyOptions { max_blocks_per_edge: 5, ..DependencyOptions::default() };
    let footprint =
        transition_dependency_footprint(0, pos(0, 64, 0), pos(1, 64, 0), MoveKind::Walk, options);
    assert!(footprint.invalidates_on_any_change());
    assert_eq!(
        footprint.blocks(),
        &[pos(0, 63, 0), pos(0, 64, 0), pos(0, 65, 0), pos(0, 66, 0), pos(1, 63, 0)]
    );
    let far =
        transition_dependency_footprint(0, pos(9, 64, 0), pos(1, 64, 0), MoveKind::Walk, options);
    assert!(far.invalidates_on_any_change());
    assert_eq!(
        far.blocks(),
        &[pos(1, 63, 0), pos(9, 63, 0), pos(9, 64, 0), pos(9, 65, 0), pos(9, 66, 0)]
    );
}

#[test]
fn repeated_footprints_leave_the_last_one_indexed() {
    let route = path(&[0, 1, 2], 20);
    let given = |edge: i32, blocks: Vec<BlockPos>| DependencyFootprint {
        edge_index: edge as usize,
        from: pos(edge, 64, 0),
        to: pos(edge + 1, 64, 0),
        blocks,
        invalidate_on_any_change: false,
    };
    let index = PathDependencyIndex::from_footprints(
        &route,
        scope("a", "overworld"),
        revisions(4, 7, 9, 2),
        &[
            given(0, vec![pos(10, 64, 0)]),
            given(1, vec![pos(20, 64, 0)]),
            given(1, vec![pos(30, 64, 0), pos(31, 64, 0)]),
        ],
    )
    .unwrap();
    assert_eq!(index.indexed_blocks(), 3);
}

#[test]
fn clones_hold_the_same_and_live_apart() {
    let key = scope("a", "overworld");
    let mut overlay = DynamicObstacleOverlay::try_new(key.clone(), 2).unwrap();
    overlay.insert(
        pos(1, 64, 0),
        OWNER,
        ObstacleKind::Hard,
        ObstaclePriority(ObstaclePriority::NORMAL),
        0,
        5,
    );
    let copy = overlay.clone();
    assert_eq!(format!("{copy:?}"), format!("{overlay:?}"));
    overlay.advance_to(5).unwrap();
    assert_eq!((overlay.active_len(), copy.active_len()), (0, 1));

    let footprint = DependencyFootprint {
        edge_index: 0,
        from: pos(0, 64, 0),
        to: pos(1, 64, 0),
        blocks: vec![pos(10, 64, 0), pos(11, 64, 0)],
        invalidate_on_any_change: true,
    };
    assert_eq!(footprint.clone(), footprint);
    let route = path(&[0, 1], 10);
    let index = PathDependencyIndex::from_footprints(
        &route,
        key.clone(),
        revisions(1, 1, 1, 1),
        &[footprint],
    )
    .unwrap();
    assert_eq!(format!("{:?}", index.clone()), format!("{index:?}"));

    let mismatch = OverlayScopeMismatch {
        expected: key.clone(),
        actual: scope("b", "nether"),
    };
    assert_eq!(mismatch.clone(), mismatch);
    let refused = OverlayApplyError::Scope(mismatch);
    assert_eq!(refused.clone(), refused);
    let invalid = InvalidationError::ScopeMismatch {
        expected: key.clone(),
        actual: scope("b", "nether"),
    };
    assert_eq!(invalid.clone(), invalid);

    let joined = structurally_join_paths(&[&route, &path(&[1, 2], 10)]).unwrap();
    assert_eq!(format!("{:?}", joined.clone()), format!("{joined:?}"));
    let patch = path(&[0, 7, 1], 10);
    let mut edge_validator = validator(&key, revisions(1, 1, 1, 1), 7);
    let spliced = splice_path_validated(
        &route,
        0,
        1,
        &patch,
        &key,
        revisions(1, 1, 1, 1),
        &mut edge_validator,
    )
    .unwrap();
    assert_eq!(format!("{:?}", spliced.clone()), format!("{spliced:?}"));
    let error = structurally_join_paths(&[]).err().unwrap();
    assert_eq!(error.clone(), error);
}
