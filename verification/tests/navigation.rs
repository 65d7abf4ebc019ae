use azalea_pathfinder::adaptive::{NonceAllocator, TerrainClass};
use azalea_pathfinder::local::world::standable_by_blocks;
use azalea_pathfinder::plugin::bounds::{
    follower_snapshot_bounds, position_reaches_goal, snap_to_standable, snapshot_bounds,
};
use azalea_pathfinder::plugin::legs::{
    adaptive_leg_seed, is_transient_free_fall, leg_regime, next_stalled_retry,
    remaining_falls_are_survivable, remaining_budget, survivable_fall_limit, MAX_STALLED_LEGS,
};
use azalea_pathfinder::plugin::memory::AvoidMemory;
use azalea_pathfinder::plugin::navigation::{may_sprint, starts_navigation, UnavailableWorld};
use azalea_pathfinder::plugin::runtime::{unlearned_snapshot, MAX_ADAPTIVE_PROFILES};
use azalea_pathfinder::plugin::settings::settled_status;
use azalea_pathfinder::plugin::visual::{listing_file_name, path_listing, sanitize_profile_name};
use azalea_pathfinder::{
    follower_settings_hash, move_context_hash, movement_costs_hash, observed_follower_settings,
    AdaptiveMode, AdaptivePathfinderRuntime, AdaptivePathfinderSettings, AdaptiveProfile,
    AdaptiveRegime, AdaptiveSettings, AttributionEvidence, BlockKind, BlockPos, CostComponents,
    FollowerSettings, GuardSignal, JourneyMetrics, LavaPolicy, MoveAttempt, MoveFeatures,
    MoveKind, MoveObservation, NavigationStatus, ObservationContext, ObservationId,
    ObservationOutcome, Path, PathFollower, PathNode, PathfinderSettings, PrimitiveId,
    ProfileError, ProfileInstallPolicy, ProfileKey, PromotionError, PromotionReport, WorldView,
};

/// The block a point is in.
fn block_of(x: f64, y: f64, z: f64) -> BlockPos {
    BlockPos::new(x.floor() as i32, y.floor() as i32, z.floor() as i32)
}

/// The deepest drop that health allows, with two hearts in reserve.
fn fall_limit_at(health: f32) -> i32 {
    if !health.is_finite() || health <= 4.0 {
        return survivable_fall_limit(0);
    }
    survivable_fall_limit((health - 4.0).floor() as i32)
}

fn adaptive_test_settings() -> AdaptiveSettings {
    AdaptiveSettings {
        mode: AdaptiveMode::Enabled,
        min_samples: 3,
        maximum_failure_upper_ppm: 900_000,
        minimum_evaluation_journeys: 2,
        ..AdaptiveSettings::default()
    }
}

fn adaptive_test_regime(key: &ProfileKey, pathfinder: &PathfinderSettings) -> AdaptiveRegime {
    AdaptiveRegime {
        build_id: "plugin-test".into(),
        planner_settings_hash: move_context_hash(&pathfinder.planner),
        control_settings_hash: follower_settings_hash(&observed_follower_settings(
            pathfinder.follower,
        )),
        baseline_costs_hash: movement_costs_hash(pathfinder.planner.costs),
        actor_capability_hash: key.capability_hash,
    }
}

fn adaptive_test_observation(
    key: &ProfileKey,
    regime: &AdaptiveRegime,
    edge_index: u32,
) -> MoveObservation {
    MoveAttempt::begin(
        ObservationContext {
            profile: key.clone(),
            journey_id: 1,
            generation: 1,
            leg: 1,
            plan_revision: 1,
            world_revision: 1,
            model_revision: 0,
            planner_settings_hash: regime.planner_settings_hash,
            control_settings_hash: regime.control_settings_hash,
            baseline_costs_hash: regime.baseline_costs_hash,
            actor_capability_hash: regime.actor_capability_hash,
            build_id: regime.build_id.clone(),
            created_unix_ms: 1,
        },
        ObservationId {
            nonce: 1_000 + u64::from(edge_index),
            journey_id: 1,
            generation: 1,
            leg: 1,
            edge_index,
            attempt: 0,
        },
        PrimitiveId(PrimitiveId::WALK_CARDINAL),
        MoveFeatures::new(1, 0, TerrainClass::FullBlock),
        BlockPos::new(edge_index as i32, 64, 0),
        BlockPos::new(edge_index as i32 + 1, 64, 0),
        CostComponents {
            time: 10,
            ..CostComponents::default()
        },
        5,
        0,
    )
    .unwrap()
    .finish(
        10,
        u64::from(edge_index) + 1,
        ObservationOutcome::Success,
        AttributionEvidence::ReachedPlannedNode,
    )
    .unwrap()
}

#[test]
fn snapshot_bounds_cap_far_goal_in_its_direction() {
    let settings = PathfinderSettings {
        snapshot_margin: 4,
        snapshot_max_span_xz: 32,
        snapshot_max_span_y: 16,
        ..PathfinderSettings::default()
    };
    let start = BlockPos::new(0, 64, 0);
    let goal = BlockPos::new(500, 20, -500);
    let (low, high) = snapshot_bounds(start, goal, &settings);
    assert_eq!((low.x, high.x), (-4, 28));
    assert_eq!((low.y, high.y), (52, 68));
    assert_eq!((low.z, high.z), (-28, 4));
}

#[test]
fn follower_snapshot_bounds_cover_live_lookahead_and_lava_clearance() {
    let path = Path {
        nodes: vec![
            PathNode {
                pos: BlockPos::new(10, 64, 10),
                reached_by: MoveKind::Start,
            },
            PathNode {
                pos: BlockPos::new(13, 65, 8),
                reached_by: MoveKind::Walk,
            },
        ],
        total_cost: 10,
    };
    let settings = FollowerSettings {
        max_los_skip: 4,
        lava_policy: LavaPolicy::Forbidden { clearance: 2 },
        ..FollowerSettings::default()
    };
    let (low, high) =
        follower_snapshot_bounds(block_of(9.5, 64.0, 11.5), &path, 0, &settings);
    assert_eq!(low, BlockPos::new(6, 61, 5));
    assert_eq!(high, BlockPos::new(16, 68, 14));
}

#[test]
fn final_arrival_uses_only_the_planner_tolerance() {
    let goal = BlockPos::new(10, 64, 0);
    assert!(position_reaches_goal(
        block_of(9.5, 64.0, 0.5),
        goal,
        1
    ));
    assert!(!position_reaches_goal(
        block_of(7.6, 64.0, 0.5),
        goal,
        1
    ));
}

#[test]
fn health_caps_falls_with_a_two_heart_reserve() {
    assert_eq!(fall_limit_at(f32::NAN), 3);
    assert_eq!(fall_limit_at(4.0), 3);
    assert_eq!(fall_limit_at(5.9), 4);
    assert_eq!(fall_limit_at(20.0), 19);
}

#[test]
fn journey_ids_are_unique_across_actors() {
    let first_runtime = AdaptivePathfinderRuntime::default();
    let second_runtime = AdaptivePathfinderRuntime::default();
    let mut nonces = NonceAllocator::seeded(1_700_000_000_000, 1);
    let first = first_runtime.allocate_journey_id(&mut nonces);
    let second = second_runtime.allocate_journey_id(&mut nonces);
    let third = first_runtime.allocate_journey_id(&mut nonces);
    assert_ne!(first, 0);
    assert_ne!(first, second);
    assert_ne!(first, third);
    assert_ne!(second, third);
}

#[test]
fn adaptive_seed_rejects_disabled_or_wrong_capability_and_is_health_independent() {
    let mut runtime = AdaptivePathfinderRuntime::default();
    let pathfinder = PathfinderSettings::default();
    let mut adaptive = AdaptivePathfinderSettings {
        profile: Some(ProfileKey::local_default()),
        learner: adaptive_test_settings(),
        build_id: "plugin-test".into(),
        ..AdaptivePathfinderSettings::default()
    };
    let first = adaptive_leg_seed(&adaptive, &mut runtime, &pathfinder).unwrap();
    let second = adaptive_leg_seed(&adaptive, &mut runtime, &pathfinder).unwrap();
    assert_eq!(first.regime, second.regime);
    assert_eq!(
        first.regime.planner_settings_hash,
        move_context_hash(&pathfinder.planner),
        "per-leg health caps must not enter the persistent regime"
    );

    adaptive.actor_capability_hash = 1;
    assert!(adaptive_leg_seed(&adaptive, &mut runtime, &pathfinder).is_none());
    adaptive.actor_capability_hash = 0;
    adaptive.learner.mode = AdaptiveMode::Disabled;
    assert!(adaptive_leg_seed(&adaptive, &mut runtime, &pathfinder).is_none());
}

#[test]
fn a_live_health_drop_invalidates_an_upcoming_damaging_fall() {
    let path = Path {
        nodes: vec![
            PathNode {
                pos: BlockPos::new(0, 64, 0),
                reached_by: MoveKind::Start,
            },
            PathNode {
                pos: BlockPos::new(1, 54, 0),
                reached_by: MoveKind::Fall,
            },
        ],
        total_cost: 10,
    };
    let follower = PathFollower::new(path, FollowerSettings::default(), 0);
    assert!(remaining_falls_are_survivable(
        follower.path(),
        follower.current_node_index(),
        fall_limit_at(20.0)
    ));
    assert!(!remaining_falls_are_survivable(
        follower.path(),
        follower.current_node_index(),
        fall_limit_at(10.0)
    ));
}

struct WaterWorld;

impl WorldView for WaterWorld {
    fn block(&self, _position: BlockPos) -> BlockKind {
        BlockKind::Water
    }

    fn standable(&self, pos: BlockPos) -> bool {
        standable_by_blocks(self, pos)
    }
}

struct AirWorld;

impl WorldView for AirWorld {
    fn block(&self, _position: BlockPos) -> BlockKind {
        BlockKind::Air
    }

    fn standable(&self, pos: BlockPos) -> bool {
        standable_by_blocks(self, pos)
    }
}

#[test]
fn swimming_is_not_an_unbounded_free_fall_retry() {
    let position = BlockPos::new(0, 64, 0);
    assert!(!is_transient_free_fall(&WaterWorld, position, false));
    assert!(is_transient_free_fall(&AirWorld, position, false));

    let mut state = (1, 0);
    let mut retries = 0;
    while let Some(next) = next_stalled_retry(state.0, state.1, 100, false) {
        state = next;
        retries += 1;
        assert!(retries <= MAX_STALLED_LEGS);
    }
    assert_eq!(retries, MAX_STALLED_LEGS);
    assert_eq!(
        next_stalled_retry(1, 0, 100, true),
        Some((1, 0)),
        "only genuine short-lived free fall keeps the retry budget"
    );
}

#[test]
fn invalid_observations_do_not_allocate_profiles_and_capacity_is_bounded() {
    let mut runtime = AdaptivePathfinderRuntime::default();
    let mut nonces = NonceAllocator::seeded(1_700_000_000_000, 1);
    let key = ProfileKey::local_default();
    let pathfinder = PathfinderSettings::default();
    let regime = adaptive_test_regime(&key, &pathfinder);
    let mut invalid = adaptive_test_observation(&key, &regime, 0);
    invalid.schema = 0;
    assert!(!runtime.try_observe(&invalid, &adaptive_test_settings()));
    assert!(runtime.profiles.is_empty());

    for index in 0..MAX_ADAPTIVE_PROFILES {
        let mut key = ProfileKey::local_default();
        key.server = format!("server-{index}");
        runtime
            .install_profile(
                AdaptiveProfile::new(key),
                ProfileInstallPolicy::RejectExisting,
                &mut nonces,
            )
            .unwrap();
    }
    let mut overflow = ProfileKey::local_default();
    overflow.server = "overflow".into();
    assert!(matches!(
        runtime.install_profile(
            AdaptiveProfile::new(overflow),
            ProfileInstallPolicy::RejectExisting,
            &mut nonces
        ),
        Err(ProfileError::Capacity)
    ));
}

#[test]
fn a_promoted_model_is_restored_explicitly() {
    let key = ProfileKey::local_default();
    let pathfinder = PathfinderSettings::default();
    let regime = adaptive_test_regime(&key, &pathfinder);
    let settings = adaptive_test_settings();
    let mut runtime = AdaptivePathfinderRuntime::default();
    for edge in 0..3 {
        assert!(
            runtime.try_observe(&adaptive_test_observation(&key, &regime, edge), &settings)
        );
    }
    let profile = runtime.profile(&key).unwrap();
    let known_good = JourneyMetrics {
        journeys: 10,
        failed: 0,
        p95_ticks: 100,
        damage_half_hearts: 0,
        setbacks: 0,
        corrections: 0,
        disconnects: 0,
    };
    let report = PromotionReport {
        evaluation_id: 1,
        candidate_data_revision: profile.data_revision,
        expected_model_revision: profile.model_revision(),
        candidate_hash: profile.candidate_hash(&settings),
        known_good,
        shadow: JourneyMetrics {
            p95_ticks: 99,
            ..known_good
        },
    };
    assert_eq!(runtime.promote(&key, &report, &settings).unwrap(), 1);

    let mut nonces = NonceAllocator::seeded(1_700_000_000_000, 1);
    let mut restored = AdaptivePathfinderRuntime::default();
    let kept = runtime.profile(&key).unwrap();
    assert!(restored
        .install_profile(kept, ProfileInstallPolicy::RejectExisting, &mut nonces)
        .unwrap()
        .is_none());
    let snapshot = restored.snapshot(&key, pathfinder.planner.costs, &settings, &regime);
    assert_eq!(snapshot.model_revision, 1);
    assert!(
        snapshot.edge_cost(
            PrimitiveId(PrimitiveId::WALK_CARDINAL),
            MoveFeatures::new(1, 0, TerrainClass::FullBlock),
            10
        ) > 10
    );
}

#[test]
fn path_visualizer_names_cannot_escape_the_configured_directory() {
    assert_eq!(
        sanitize_profile_name("../bad/name\r\n"),
        Some("___bad_name__".to_owned())
    );
    assert_eq!(
        sanitize_profile_name("TreXito_42"),
        Some("TreXito_42".to_owned())
    );
    assert_eq!(sanitize_profile_name(""), None);
}

#[test]
fn a_profile_is_replaced_only_when_asked() {
    let mut nonces = NonceAllocator::seeded(1_700_000_000_000, 1);
    let mut runtime = AdaptivePathfinderRuntime::default();
    let key = ProfileKey::local_default();
    let install = |runtime: &mut AdaptivePathfinderRuntime,
                   nonces: &mut NonceAllocator,
                   profile: AdaptiveProfile,
                   policy| runtime.install_profile(profile, policy, nonces);
    assert!(install(
        &mut runtime,
        &mut nonces,
        AdaptiveProfile::new(key.clone()),
        ProfileInstallPolicy::RejectExisting
    )
    .unwrap()
    .is_none());
    assert!(matches!(
        install(
            &mut runtime,
            &mut nonces,
            AdaptiveProfile::new(key.clone()),
            ProfileInstallPolicy::RejectExisting
        ),
        Err(ProfileError::AlreadyExists)
    ));
    assert!(install(
        &mut runtime,
        &mut nonces,
        AdaptiveProfile::new(key.clone()),
        ProfileInstallPolicy::ReplaceExisting
    )
    .unwrap()
    .is_some());
    let mut invalid = AdaptiveProfile::new(key);
    invalid.schema = 0;
    assert!(matches!(
        install(
            &mut runtime,
            &mut nonces,
            invalid,
            ProfileInstallPolicy::ReplaceExisting
        ),
        Err(ProfileError::Invalid)
    ));
    assert_eq!(
        ProfileError::AlreadyExists.message(),
        "adaptive profile already exists"
    );
}

#[test]
fn a_full_learner_counts_what_it_has_no_room_for() {
    let mut nonces = NonceAllocator::seeded(1_700_000_000_000, 1);
    let mut runtime = AdaptivePathfinderRuntime::default();
    for index in 0..MAX_ADAPTIVE_PROFILES {
        let mut key = ProfileKey::local_default();
        key.server = format!("server-{index}");
        runtime
            .install_profile(
                AdaptiveProfile::new(key),
                ProfileInstallPolicy::RejectExisting,
                &mut nonces,
            )
            .unwrap();
    }
    let key = ProfileKey::local_default();
    let pathfinder = PathfinderSettings::default();
    let regime = adaptive_test_regime(&key, &pathfinder);
    let settings = adaptive_test_settings();
    let snapshot = runtime.snapshot(&key, pathfinder.planner.costs, &settings, &regime);
    assert!(!snapshot.affects_routing());
    assert_eq!(runtime.dropped_observations(), 1);
    assert!(!runtime.try_observe(&adaptive_test_observation(&key, &regime, 0), &settings));
    assert_eq!(runtime.dropped_observations(), 2);
    assert_eq!(
        runtime.rollback(&key, GuardSignal::Operator),
        Err(PromotionError::ProfileCapacity)
    );
    assert_eq!(runtime.profiles.len(), MAX_ADAPTIVE_PROFILES);
    assert!(runtime.profile(&key).is_none());
    assert!(!unlearned_snapshot(&key, pathfinder.planner.costs, &settings, &regime).affects_routing());
}

#[test]
fn learning_stays_in_its_own_profile() {
    let mut runtime = AdaptivePathfinderRuntime::default();
    let key = ProfileKey::local_default();
    let mut other = key.clone();
    other.server = "other".to_owned();
    let pathfinder = PathfinderSettings::default();
    let settings = adaptive_test_settings();
    let regime = adaptive_test_regime(&key, &pathfinder);
    let foreign = adaptive_test_regime(&other, &pathfinder);
    assert!(runtime.try_observe(&adaptive_test_observation(&other, &foreign, 0), &settings));
    assert!(runtime.try_observe(&adaptive_test_observation(&key, &regime, 1), &settings));
    assert!(!runtime.try_observe(&adaptive_test_observation(&key, &regime, 1), &settings));
    assert_eq!(runtime.profile(&key).unwrap().data_revision, 1);
    assert_eq!(runtime.profile(&other).unwrap().data_revision, 1);
}

#[test]
fn regimes_come_from_their_hashes() {
    let mut settings = AdaptivePathfinderSettings {
        profile: Some(ProfileKey::local_default()),
        build_id: "hashes".to_owned(),
        ..AdaptivePathfinderSettings::default()
    };
    let regime = leg_regime(&settings, 1, 2, 3).unwrap();
    assert_eq!(
        (
            regime.planner_settings_hash,
            regime.control_settings_hash,
            regime.baseline_costs_hash
        ),
        (1, 2, 3)
    );
    assert!(leg_regime(&settings, 0, 2, 3).is_none());
    settings.profile = None;
    assert!(leg_regime(&settings, 1, 2, 3).is_none());
    assert_eq!(settings.world_revision, 1);
}

#[test]
fn budgets_shrink_with_the_clock() {
    assert_eq!(remaining_budget(2_000, 0), Some(2_000));
    assert_eq!(remaining_budget(2_000, 1), Some(1_999));
    assert_eq!(remaining_budget(2_000, 1_999_999_999), Some(1));
    assert_eq!(remaining_budget(2_000, 2_000_000_000), None);
    assert_eq!(remaining_budget(0, 0), None);
}

#[test]
fn a_short_line_is_captured_with_its_margin() {
    let settings = PathfinderSettings {
        snapshot_margin: 4,
        ..PathfinderSettings::default()
    };
    let (low, high) = snapshot_bounds(
        BlockPos::new(0, 64, 0),
        BlockPos::new(-10, 70, 5),
        &settings,
    );
    assert_eq!(low, BlockPos::new(-14, 60, -4));
    assert_eq!(high, BlockPos::new(4, 74, 9));
    let edge = snapshot_bounds(
        BlockPos::new(i32::MAX, 0, 0),
        BlockPos::new(i32::MAX, 0, 0),
        &settings,
    );
    assert_eq!(edge.1.x, i32::MAX);
}

/// A floor at one height and nothing else.
struct Floor(i32);

impl WorldView for Floor {
    fn block(&self, pos: BlockPos) -> BlockKind {
        if pos.y == self.0 {
            BlockKind::Solid
        } else {
            BlockKind::Air
        }
    }

    fn standable(&self, pos: BlockPos) -> bool {
        standable_by_blocks(self, pos)
    }
}

#[test]
fn goals_snap_to_the_floor_of_their_column() {
    let (lo, hi) = (BlockPos::new(-50, 0, -50), BlockPos::new(50, 300, 50));
    let floor = Floor(63);
    assert_eq!(
        snap_to_standable(&floor, BlockPos::new(7, 64, 9), lo, hi),
        Some(BlockPos::new(7, 64, 9))
    );
    assert_eq!(
        snap_to_standable(&floor, BlockPos::new(7, 160, 9), lo, hi),
        Some(BlockPos::new(7, 64, 9))
    );
    assert_eq!(
        snap_to_standable(&floor, BlockPos::new(7, 20, 9), lo, hi),
        Some(BlockPos::new(7, 64, 9))
    );
    assert_eq!(
        snap_to_standable(&floor, BlockPos::new(7, 301, 9), lo, hi),
        None
    );
    assert_eq!(
        snap_to_standable(&UnavailableWorld, BlockPos::new(7, 64, 9), lo, hi),
        None
    );
}

#[test]
fn blame_tolls_a_cube_and_escalates() {
    let mut memory = AvoidMemory::default();
    let at = BlockPos::new(10, 64, -3);
    memory.blame(at);
    let first = memory.snapshot();
    assert_eq!(first.get(at), Some(&800));
    assert_eq!(first.get(BlockPos::new(12, 66, -5)), Some(&800));
    assert_eq!(first.get(BlockPos::new(13, 64, -3)), None);
    memory.blame(BlockPos::new(11, 64, -3));
    let second = memory.snapshot();
    assert_eq!(second.get(at), Some(&1_600));
    assert_eq!(second.get(BlockPos::new(8, 64, -3)), Some(&800));
    assert_eq!(second.get(BlockPos::new(13, 64, -3)), Some(&800));
    assert_eq!(first.get(at), Some(&800), "a snapshot is a copy");
    let mut corner = AvoidMemory::default();
    corner.blame(BlockPos::new(i32::MAX, 0, 0));
    assert_eq!(
        corner.spots.get(BlockPos::new(i32::MAX, 0, 0)),
        Some(&2_400),
        "displacements meet at the end of the range"
    );
}

#[test]
fn listings_are_one_line_per_node() {
    let path = Path {
        nodes: vec![
            PathNode {
                pos: BlockPos::new(0, 64, -1),
                reached_by: MoveKind::Start,
            },
            PathNode {
                pos: BlockPos::new(3, 64, -1),
                reached_by: MoveKind::Parkour { blocks: 3, rise: 0 },
            },
            PathNode {
                pos: BlockPos::new(9, 64, -1),
                reached_by: MoveKind::Etherwarp,
            },
        ],
        total_cost: 66,
    };
    assert_eq!(
        path_listing("bot", BlockPos::new(-5, 70, 12), &path),
        "bot\n-5 70 12\n0 64 -1 start\n3 64 -1 parkour\n9 64 -1 warp\n"
    );
    assert_eq!(listing_file_name("TreXito_42"), "bot-TreXito_42.path");
    assert_eq!(sanitize_profile_name(&"x".repeat(80)).unwrap().len(), 64);
}

#[test]
fn waits_end_with_their_own_generation() {
    let arrived = NavigationStatus::Arrived { generation: 3 };
    assert_eq!(settled_status(arrived, Some(3), 3), Some(arrived));
    assert_eq!(
        settled_status(arrived, Some(4), 4),
        None,
        "an older arrival does not answer a newer request"
    );
    assert_eq!(
        settled_status(NavigationStatus::Planning { generation: 4 }, Some(4), 3),
        Some(NavigationStatus::Failed { generation: 3 })
    );
    assert_eq!(
        settled_status(NavigationStatus::Idle, None, 3),
        Some(NavigationStatus::Idle)
    );
    assert_eq!(
        settled_status(NavigationStatus::Following { generation: 3 }, None, 3),
        None
    );
}

#[test]
fn a_request_is_planned_when_new_or_idle() {
    assert!(starts_navigation(true, true, true, true));
    assert!(starts_navigation(false, false, false, false));
    assert!(!starts_navigation(false, true, false, false));
    assert!(!starts_navigation(false, false, true, false));
    assert!(!starts_navigation(false, false, false, true));
    assert!(may_sprint(None));
    assert!(may_sprint(Some(7)));
    assert!(!may_sprint(Some(6)));
}
