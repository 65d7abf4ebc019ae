use azalea_pathfinder::adaptive::estimate::{integer_sqrt, MAX_PROFILE_BUCKETS};
use azalea_pathfinder::adaptive::features::FeatureKey;
use azalea_pathfinder::adaptive::model::MULTIPLIER_ONE;
use azalea_pathfinder::adaptive::observation::{
    attribution_matches, nonce_successor, MAX_OBSERVATION_NONCE,
};
use azalea_pathfinder::adaptive::profile::MAX_RECENT_COMPLETIONS;
use azalea_pathfinder::adaptive::promotion::rate_worse;
use azalea_pathfinder::adaptive::{NonceAllocator, TerrainClass};
use azalea_pathfinder::key_map::KeyMap;
use azalea_pathfinder::local::settings::Real32;
use azalea_pathfinder::{
    follower_settings_hash, move_context_hash, movement_costs_hash, AdaptiveMode, AdaptiveProfile,
    AdaptiveSettings, AttributionEvidence, BlockPos, CostComponents, CostModelSnapshot,
    FollowerSettings, GuardSignal, InterruptionReason, JourneyMetrics, MoveAttempt, MoveContext,
    MoveFeatures, MoveObservation, MovementCosts, ObservationContext, ObservationError,
    ObservationId, ObservationOutcome, PrimitiveId, ProfileError, ProfileKey, PromotionError,
    PromotionReport,
};

/// A nonce of its own for each edge of a test.
fn nonce_for(edge_index: u32) -> u64 {
    10_000 + u64::from(edge_index)
}

fn context(key: &ProfileKey) -> ObservationContext {
    ObservationContext {
        profile: key.clone(),
        journey_id: 7,
        generation: 3,
        leg: 2,
        plan_revision: 11,
        world_revision: 12,
        model_revision: 0,
        planner_settings_hash: 13,
        control_settings_hash: 14,
        baseline_costs_hash: movement_costs_hash(MovementCosts::default()),
        actor_capability_hash: key.capability_hash,
        build_id: "test-build".into(),
        created_unix_ms: 15,
    }
}

fn observation(
    key: &ProfileKey,
    edge_index: u32,
    ticks: u64,
    outcome: ObservationOutcome,
) -> MoveObservation {
    let evidence = match outcome {
        ObservationOutcome::Success => AttributionEvidence::ReachedPlannedNode,
        ObservationOutcome::Stalled => AttributionEvidence::StallDetector,
        ObservationOutcome::Unsafe => AttributionEvidence::LiveValidationFailure,
        ObservationOutcome::FellOff => AttributionEvidence::FellBelowPath,
        ObservationOutcome::TimedOut => AttributionEvidence::CumulativeDeadline,
        ObservationOutcome::Interrupted(
            InterruptionReason::Pause
            | InterruptionReason::Cancelled
            | InterruptionReason::GoalChanged,
        ) => AttributionEvidence::PauseOrCancellation,
        ObservationOutcome::Interrupted(_) => AttributionEvidence::ExternalMovementEvent,
    };
    MoveAttempt::begin(
        context(key),
        ObservationId {
            nonce: nonce_for(edge_index),
            journey_id: 7,
            generation: 3,
            leg: 2,
            edge_index,
            attempt: 0,
        },
        PrimitiveId(PrimitiveId::WALK_CARDINAL),
        MoveFeatures::new(1, 0, TerrainClass::FullBlock),
        BlockPos::new(edge_index as i32, 64, 0),
        BlockPos::new(edge_index as i32 + 1, 64, 0),
        CostComponents {
            time: 10,
            ..CostComponents::default()
        },
        5,
        100,
    )
    .unwrap()
    .finish(100 + ticks, u64::from(edge_index) + 1, outcome, evidence)
    .unwrap()
}

/// The slot a feature key is kept in.
fn slot(key: FeatureKey) -> u128 {
    u128::from(key.0)
}

fn permissive_settings(mode: AdaptiveMode) -> AdaptiveSettings {
    AdaptiveSettings {
        mode,
        min_samples: 3,
        maximum_failure_upper_ppm: 900_000,
        minimum_evaluation_journeys: 2,
        ..AdaptiveSettings::default()
    }
}

fn good_report(
    profile: &AdaptiveProfile,
    settings: &AdaptiveSettings,
    evaluation_id: u64,
) -> PromotionReport {
    let known_good = JourneyMetrics {
        journeys: 10,
        failed: 1,
        p95_ticks: 100,
        damage_half_hearts: 2,
        setbacks: 2,
        corrections: 2,
        disconnects: 0,
    };
    PromotionReport {
        evaluation_id,
        candidate_data_revision: profile.data_revision,
        expected_model_revision: profile.model_revision(),
        candidate_hash: profile.candidate_hash(settings),
        known_good,
        shadow: JourneyMetrics {
            p95_ticks: 99,
            ..known_good
        },
    }
}

#[test]
fn attempt_is_exactly_once_and_rejects_zero_tick_success() {
    assert_eq!(
        nonce_successor(MAX_OBSERVATION_NONCE - 1),
        Some(MAX_OBSERVATION_NONCE)
    );
    assert_eq!(nonce_successor(MAX_OBSERVATION_NONCE), None);
    let key = ProfileKey::local_default();
    let attempt = MoveAttempt::begin(
        context(&key),
        ObservationId {
            nonce: nonce_for(900),
            journey_id: 7,
            generation: 3,
            leg: 2,
            edge_index: 0,
            attempt: 0,
        },
        PrimitiveId(PrimitiveId::WALK_CARDINAL),
        MoveFeatures::new(1, 0, TerrainClass::FullBlock),
        BlockPos::new(0, 64, 0),
        BlockPos::new(1, 64, 0),
        CostComponents {
            time: 10,
            ..CostComponents::default()
        },
        5,
        100,
    )
    .unwrap();
    assert!(matches!(
        attempt.finish(
            100,
            1,
            ObservationOutcome::Success,
            AttributionEvidence::ReachedPlannedNode
        ),
        Err(ObservationError::TickOrder)
    ));
}

#[test]
fn duplicate_completion_and_unknown_primitive_are_rejected() {
    let key = ProfileKey::local_default();
    let mut profile = AdaptiveProfile::new(key.clone());
    let settings = permissive_settings(AdaptiveMode::Shadow);
    let first_observation = observation(&key, 0, 5, ObservationOutcome::Success);
    assert!(profile.observe(&first_observation, &settings));
    assert!(!profile.observe(&first_observation, &settings));
    let mut reused_nonce = observation(&key, 1, 5, ObservationOutcome::Success);
    reused_nonce.id.nonce = first_observation.id.nonce;
    assert!(
        !profile.observe(&reused_nonce, &settings),
        "a nonce is globally unique even if other identity fields differ"
    );
    let mut exhausted_nonce = observation(&key, 2, 5, ObservationOutcome::Success);
    exhausted_nonce.id.nonce = MAX_OBSERVATION_NONCE;
    assert!(!exhausted_nonce.validate());
    assert!(!profile.observe(&exhausted_nonce, &settings));
    assert!(
        MoveAttempt::begin(
            context(&key),
            ObservationId {
                nonce: nonce_for(900),
                journey_id: 7,
                generation: 3,
                leg: 2,
                edge_index: 1,
                attempt: 0,
            },
            PrimitiveId(500),
            MoveFeatures::new(1, 0, TerrainClass::FullBlock),
            BlockPos::new(0, 64, 0),
            BlockPos::new(1, 64, 0),
            CostComponents {
                time: 10,
                ..CostComponents::default()
            },
            5,
            1,
        )
        .is_err()
    );
}

#[test]
fn interruptions_do_not_increase_failure_trials() {
    let key = ProfileKey::local_default();
    let mut profile = AdaptiveProfile::new(key.clone());
    let settings = permissive_settings(AdaptiveMode::Shadow);
    assert!(profile.observe(
        &observation(&key, 0, 5, ObservationOutcome::Success),
        &settings
    ));
    assert!(profile.observe(
        &observation(
            &key,
            1,
            5,
            ObservationOutcome::Interrupted(InterruptionReason::ServerCorrection)
        ),
        &settings
    ));
    let estimate = profile
        .estimates
        .get(slot(FeatureKey::fallback(PrimitiveId(
            PrimitiveId::WALK_CARDINAL,
        ))))
        .unwrap();
    assert_eq!(estimate.successes, 1);
    assert_eq!(estimate.failures, 0);
    assert_eq!(estimate.interruptions, 1);
}

#[test]
fn shadow_never_changes_cost_and_enabled_requires_promotion() {
    let key = ProfileKey::local_default();
    let mut profile = AdaptiveProfile::new(key.clone());
    let settings = permissive_settings(AdaptiveMode::Enabled);
    for edge in 0..3 {
        profile.observe(
            &observation(&key, edge, 10, ObservationOutcome::Success),
            &settings,
        );
    }
    let features = MoveFeatures::new(1, 0, TerrainClass::FullBlock);
    let regime = context(&key).regime();
    let before = profile.snapshot(MovementCosts::default(), &settings, &regime);
    assert_eq!(
        before.edge_cost(PrimitiveId(PrimitiveId::WALK_CARDINAL), features, 10),
        10
    );
    assert!(
        before
            .proposed_edge_cost(PrimitiveId(PrimitiveId::WALK_CARDINAL), features, 10)
            .is_some()
    );
    let report = good_report(&profile, &settings, 1);
    profile.promote(&report, &settings).unwrap();
    let after = profile.snapshot(MovementCosts::default(), &settings, &regime);
    assert!(after.edge_cost(PrimitiveId(PrimitiveId::WALK_CARDINAL), features, 10) > 10);
}

#[test]
fn promotion_rejects_regression_and_rolls_back() {
    let key = ProfileKey::local_default();
    let mut profile = AdaptiveProfile::new(key.clone());
    let settings = permissive_settings(AdaptiveMode::Enabled);
    for edge in 0..3 {
        profile.observe(
            &observation(&key, edge, 10, ObservationOutcome::Success),
            &settings,
        );
    }
    let mut bad = good_report(&profile, &settings, 1);
    bad.shadow.disconnects = 1;
    assert_eq!(
        profile.promote(&bad, &settings),
        Err(PromotionError::SafetyRegression)
    );
    let report = good_report(&profile, &settings, 1);
    assert_eq!(profile.promote(&report, &settings).unwrap(), 1);
    assert_eq!(
        profile.promote(&report, &settings),
        Err(PromotionError::StaleCandidate),
        "the same evaluation cannot advance multiple promotion steps"
    );
    assert_eq!(profile.rollback(GuardSignal::Operator).unwrap(), 2);
    assert_eq!(profile.model_revision(), 2);
}

#[test]
fn context_bucket_uses_fallback_until_exact_is_confident() {
    let key = ProfileKey::local_default();
    let mut profile = AdaptiveProfile::new(key.clone());
    let settings = permissive_settings(AdaptiveMode::Shadow);
    for edge in 0..3 {
        profile.observe(
            &observation(&key, edge, 10, ObservationOutcome::Success),
            &settings,
        );
    }
    let regime = context(&key).regime();
    let snapshot = profile.snapshot(MovementCosts::default(), &settings, &regime);
    let unseen = MoveFeatures::new(1, 0, TerrainClass::PartialBlock);
    assert!(
        snapshot
            .proposed_edge_cost(PrimitiveId(PrimitiveId::WALK_CARDINAL), unseen, 10)
            .is_some(),
        "primitive fallback should cover sparse feature buckets"
    );
}

#[test]
fn changed_regime_neither_learns_from_nor_routes_with_the_old_model() {
    let key = ProfileKey::local_default();
    let mut profile = AdaptiveProfile::new(key.clone());
    let settings = permissive_settings(AdaptiveMode::Enabled);
    for edge in 0..3 {
        assert!(profile.observe(
            &observation(&key, edge, 10, ObservationOutcome::Success),
            &settings,
        ));
    }
    let report = good_report(&profile, &settings, 1);
    profile.promote(&report, &settings).unwrap();

    let mut changed_context = context(&key);
    changed_context.build_id = "different-build".into();
    let changed_regime = changed_context.regime();
    let snapshot = profile.snapshot(MovementCosts::default(), &settings, &changed_regime);
    let features = MoveFeatures::new(1, 0, TerrainClass::FullBlock);
    assert_eq!(
        snapshot.edge_cost(PrimitiveId(PrimitiveId::WALK_CARDINAL), features, 10),
        10
    );
    assert_eq!(snapshot.model_revision, 0);

    let mismatched_baseline = MovementCosts {
        cardinal_walk: 99,
        ..MovementCosts::default()
    };
    let original_regime = context(&key).regime();
    let mismatched = profile.snapshot(mismatched_baseline, &settings, &original_regime);
    assert_eq!(
        mismatched.edge_cost(PrimitiveId(PrimitiveId::WALK_CARDINAL), features, 99),
        99
    );
    assert_eq!(mismatched.model_revision, 0);

    let mut changed = observation(&key, 50, 10, ObservationOutcome::Success);
    changed.context = changed_context;
    changed.id.journey_id = changed.context.journey_id;
    changed.id.generation = changed.context.generation;
    changed.id.leg = changed.context.leg;
    assert!(!profile.observe(&changed, &settings));
    assert_eq!(profile.data_revision, 3);
}

#[test]
fn actor_and_control_contexts_fail_closed() {
    let key = ProfileKey::local_default();
    let mut invalid = context(&key);
    invalid.actor_capability_hash = key.capability_hash.wrapping_add(1);
    assert!(!invalid.validate());

    let first = follower_settings_hash(&FollowerSettings::default());
    let changed = FollowerSettings {
        turn_ease: Real32(0.25_f32.to_bits()),
        ..FollowerSettings::default()
    };
    assert_ne!(first, follower_settings_hash(&changed));
}

#[test]
fn promotion_report_freezes_the_exact_bounded_candidate_and_settings() {
    let key = ProfileKey::local_default();
    let mut profile = AdaptiveProfile::new(key.clone());
    let settings = permissive_settings(AdaptiveMode::Enabled);
    for edge in 0..3 {
        assert!(profile.observe(
            &observation(&key, edge, 10, ObservationOutcome::Success),
            &settings,
        ));
    }
    let report = good_report(&profile, &settings, 1);
    let changed_settings = AdaptiveSettings {
        max_step_percent: 25,
        ..settings.clone()
    };
    assert_eq!(
        profile.promote(&report, &changed_settings),
        Err(PromotionError::StaleCandidate)
    );
    assert_eq!(profile.model_revision(), 0);
    assert_eq!(profile.promote(&report, &settings).unwrap(), 1);
}

#[test]
fn safety_comparison_uses_rates_for_unequal_cohorts() {
    let settings = permissive_settings(AdaptiveMode::Shadow).validated();
    let report = PromotionReport {
        evaluation_id: 1,
        candidate_data_revision: 1,
        expected_model_revision: 0,
        candidate_hash: 1,
        known_good: JourneyMetrics {
            journeys: 100,
            failed: 0,
            p95_ticks: 100,
            damage_half_hearts: 10,
            setbacks: 0,
            corrections: 0,
            disconnects: 0,
        },
        shadow: JourneyMetrics {
            journeys: 20,
            failed: 0,
            p95_ticks: 100,
            damage_half_hearts: 3,
            setbacks: 0,
            corrections: 0,
            disconnects: 0,
        },
    };
    assert_eq!(
        report.validate(&settings),
        Err(PromotionError::SafetyRegression)
    );
}

#[test]
fn shadow_candidate_preserves_fixed_safety_components() {
    let features = MoveFeatures::new(1, 0, TerrainClass::Water);
    let mut candidate = KeyMap::new();
    candidate.insert(
        slot(FeatureKey::exact(PrimitiveId(PrimitiveId::SWIM), features)),
        500_000,
    );
    let snapshot = CostModelSnapshot {
        data_revision: 1,
        model_revision: 0,
        mode: AdaptiveMode::Shadow,
        baseline: MovementCosts::default(),
        active: KeyMap::new(),
        candidate,
    };
    let baseline = CostComponents {
        time: 20,
        safety: 1_000,
        damage: 7,
        resource: 3,
        ..CostComponents::default()
    };
    let proposed = snapshot
        .proposed_edge_components(PrimitiveId(PrimitiveId::SWIM), features, baseline)
        .unwrap();
    assert_eq!(proposed.time, 10);
    assert_eq!(proposed.safety, 1_000);
    assert_eq!(proposed.damage, 7);
    assert_eq!(proposed.resource, 3);
    assert_eq!(proposed.total(), 1_020);

    let candidate_view = snapshot.candidate_view();
    assert!(candidate_view.affects_routing());
    assert_eq!(
        candidate_view
            .edge_components(PrimitiveId(PrimitiveId::SWIM), features, baseline)
            .total(),
        proposed.total()
    );
}

#[test]
fn eviction_uses_profile_arrival_order_not_follower_local_sequences() {
    let key = ProfileKey::local_default();
    let mut profile = AdaptiveProfile::new(key.clone());
    let settings = AdaptiveSettings {
        max_buckets: 1,
        ..permissive_settings(AdaptiveMode::Shadow)
    };
    let full = observation(&key, 0, 5, ObservationOutcome::Success);
    assert!(profile.observe(&full, &settings));

    let mut partial = observation(&key, 1, 5, ObservationOutcome::Success);
    partial.features.terrain = TerrainClass::PartialBlock;
    partial.completion_sequence = full.completion_sequence;
    assert!(profile.observe(&partial, &settings));
    assert!(!profile.estimates.contains(slot(FeatureKey::exact(
        PrimitiveId(PrimitiveId::WALK_CARDINAL),
        full.features
    ))));
    assert!(profile.estimates.contains(slot(FeatureKey::exact(
        PrimitiveId(PrimitiveId::WALK_CARDINAL),
        partial.features
    ))));
}

#[test]
fn a_promoted_model_outlives_the_bucket_it_was_learned_in() {
    let key = ProfileKey::local_default();
    let mut profile = AdaptiveProfile::new(key.clone());
    let settings = AdaptiveSettings {
        max_buckets: 1,
        ..permissive_settings(AdaptiveMode::Enabled)
    };
    for edge in 0..3 {
        assert!(profile.observe(
            &observation(&key, edge, 10, ObservationOutcome::Success),
            &settings
        ));
    }
    let report = good_report(&profile, &settings, 1);
    profile.promote(&report, &settings).unwrap();

    let mut different = observation(&key, 20, 5, ObservationOutcome::Success);
    different.features.terrain = TerrainClass::PartialBlock;
    assert!(profile.observe(&different, &settings));
    assert!(profile.validate());

    assert_eq!(profile.model_revision(), 1);
}

#[test]
fn persisted_models_cannot_bypass_multiplier_bucket_caps() {
    let key = ProfileKey::local_default();
    let mut profile = AdaptiveProfile::new(key.clone());
    assert!(profile.observe(
        &observation(&key, 0, 5, ObservationOutcome::Success),
        &AdaptiveSettings::default()
    ));
    profile.active.revision = 1;
    profile.active.source_data_revision = profile.data_revision;
    profile.last_evaluation_id = 1;
    for index in 0..=(MAX_PROFILE_BUCKETS + 11) {
        let features = MoveFeatures::new(
            (index % 17) as u8,
            (index / 17) as i8,
            TerrainClass::FullBlock,
        );
        profile.active.multipliers.insert(
            slot(FeatureKey::exact(
                PrimitiveId(PrimitiveId::WALK_CARDINAL),
                features,
            )),
            MULTIPLIER_ONE,
        );
    }
    assert_eq!(profile.active.multipliers.len(), MAX_PROFILE_BUCKETS + 12);
    assert!(!profile.validate());
}

#[test]
fn observations_older_than_the_replay_window_are_rejected() {
    let key = ProfileKey::local_default();
    let mut profile = AdaptiveProfile::new(key.clone());
    let settings = permissive_settings(AdaptiveMode::Shadow);
    let mut newest = observation(&key, 0, 5, ObservationOutcome::Success);
    newest.id.nonce = MAX_RECENT_COMPLETIONS + 100;
    assert!(profile.observe(&newest, &settings));

    let mut reordered = observation(&key, 1, 5, ObservationOutcome::Success);
    reordered.id.nonce = newest.id.nonce - 1;
    assert!(profile.observe(&reordered, &settings));

    let mut old = observation(&key, 2, 5, ObservationOutcome::Success);
    old.id.nonce = 100;
    assert!(!profile.observe(&old, &settings));
    assert_eq!(profile.data_revision, 2);
}

#[test]
fn a_profile_from_the_future_moves_the_nonces_past_it() {
    let key = ProfileKey::local_default();
    let mut profile = AdaptiveProfile::new(key.clone());
    let mut nonces = NonceAllocator::seeded(1_700_000_000_000, 42);
    let mut future = observation(&key, 0, 5, ObservationOutcome::Success);
    future.id.nonce = nonces.next_observation_nonce().saturating_add(1_000_000);
    let floor = future.id.nonce;
    assert!(profile.observe(&future, &AdaptiveSettings::default()));
    assert_eq!(profile.replay_high_water, floor);
    assert_eq!(profile.prepare_nonce_allocator(&mut nonces), Ok(()));
    assert_eq!(nonces.next_observation_nonce(), floor + 1);

    profile.replay_high_water = MAX_OBSERVATION_NONCE;
    assert_eq!(
        profile.prepare_nonce_allocator(&mut nonces),
        Err(ProfileError::NonceExhausted)
    );
    assert_eq!(nonces.next_observation_nonce(), floor + 2);
}

#[test]
fn nonces_are_drawn_once_and_run_out_as_zero() {
    let mut nonces = NonceAllocator::seeded(1, 1);
    let first = nonces.next_observation_nonce();
    assert_ne!(first, 0);
    assert_eq!(nonces.next_observation_nonce(), first + 1);
    nonces.ensure_after(MAX_OBSERVATION_NONCE - 2).unwrap();
    assert_eq!(nonces.next_observation_nonce(), MAX_OBSERVATION_NONCE - 1);
    assert_eq!(nonces.next_observation_nonce(), 0);
    assert_eq!(nonces.next_observation_nonce(), 0);
}

fn attempt_with(
    features: MoveFeatures,
    id: ObservationId,
    predicted_ticks: u32,
) -> Result<MoveAttempt, ObservationError> {
    MoveAttempt::begin(
        context(&ProfileKey::local_default()),
        id,
        PrimitiveId(PrimitiveId::WALK_CARDINAL),
        features,
        BlockPos::new(0, 64, 0),
        BlockPos::new(1, 64, 0),
        CostComponents {
            time: 10,
            ..CostComponents::default()
        },
        predicted_ticks,
        0,
    )
}

#[test]
fn every_fault_of_an_attempt_is_named() {
    let features = MoveFeatures::new(1, 0, TerrainClass::FullBlock);
    let id = ObservationId {
        nonce: 5,
        journey_id: 7,
        generation: 3,
        leg: 2,
        edge_index: 0,
        attempt: 0,
    };
    assert!(attempt_with(features, id, 5).is_ok());
    let mut foreign = context(&ProfileKey::local_default());
    foreign.build_id = String::new();
    let error = MoveAttempt::begin(
        foreign,
        id,
        PrimitiveId(PrimitiveId::WALK_CARDINAL),
        features,
        BlockPos::new(0, 64, 0),
        BlockPos::new(1, 64, 0),
        CostComponents::default(),
        5,
        0,
    )
    .unwrap_err();
    assert_eq!(error, ObservationError::InvalidContext);
    assert_eq!(error.message(), "invalid movement observation: InvalidContext");
    assert_eq!(
        attempt_with(MoveFeatures { schema: 0, ..features }, id, 5).unwrap_err(),
        ObservationError::InvalidFeatures
    );
    assert_eq!(
        attempt_with(features, ObservationId { leg: 9, ..id }, 5).unwrap_err(),
        ObservationError::InvalidIdentity
    );
    assert_eq!(
        attempt_with(features, id, 0).unwrap_err(),
        ObservationError::InvalidPrediction
    );
    assert_eq!(
        attempt_with(features, id, 5)
            .unwrap()
            .finish(
                4,
                1,
                ObservationOutcome::Success,
                AttributionEvidence::StallDetector
            )
            .unwrap_err(),
        ObservationError::InvalidAttribution
    );
}

#[test]
fn reports_without_evidence_are_refused_by_name() {
    let key = ProfileKey::local_default();
    let mut profile = AdaptiveProfile::new(key.clone());
    let settings = permissive_settings(AdaptiveMode::Shadow);
    assert_eq!(
        profile.rollback(GuardSignal::Operator),
        Err(PromotionError::NoRollback)
    );
    let report = good_report(&profile, &settings, 1);
    assert_eq!(
        profile.promote(&report, &settings),
        Err(PromotionError::InsufficientSamples)
    );
    let mut small = report;
    small.shadow.journeys = 1;
    small.shadow.failed = 0;
    assert_eq!(
        profile.promote(&small, &settings),
        Err(PromotionError::InsufficientEvaluation)
    );
    let mut slow = report;
    slow.shadow.p95_ticks = 200;
    assert_eq!(
        profile.promote(&slow, &settings),
        Err(PromotionError::PerformanceRegression)
    );
    let mut impossible = report;
    impossible.shadow.failed = 11;
    assert_eq!(
        profile.promote(&impossible, &settings),
        Err(PromotionError::InvalidReport)
    );
    profile.active.revision = u64::MAX;
    profile.previous = Some(AdaptiveProfile::new(key).active);
    assert_eq!(
        profile.rollback(GuardSignal::Disconnect),
        Err(PromotionError::RevisionOverflow)
    );
    assert_eq!(
        PromotionError::NoRollback.message(),
        "adaptive promotion rejected: NoRollback"
    );
}

#[test]
fn rolling_back_restores_the_model_before_the_promotion() {
    let key = ProfileKey::local_default();
    let mut profile = AdaptiveProfile::new(key.clone());
    let settings = permissive_settings(AdaptiveMode::Enabled);
    for edge in 0..3 {
        profile.observe(
            &observation(&key, edge, 10, ObservationOutcome::Success),
            &settings,
        );
    }
    let features = MoveFeatures::new(1, 0, TerrainClass::FullBlock);
    let regime = context(&key).regime();
    let report = good_report(&profile, &settings, 1);
    assert_eq!(profile.promote(&report, &settings), Ok(1));
    let promoted = profile.snapshot(MovementCosts::default(), &settings, &regime);
    let walk = PrimitiveId(PrimitiveId::WALK_CARDINAL);
    assert_eq!(
        promoted.edge_cost(walk, features, 1_000),
        1_100,
        "one promotion moves a cost by a tenth at most"
    );
    assert_eq!(profile.rollback(GuardSignal::SetbackSpike), Ok(2));
    let restored = profile.snapshot(MovementCosts::default(), &settings, &regime);
    assert_eq!(restored.edge_cost(walk, features, 1_000), 1_000);
    assert!(profile.validate());
}

#[test]
fn roots_are_floors_and_rates_compare_exactly() {
    for (value, root) in [(0, 0), (1, 1), (15, 3), (16, 4), (u64::MAX, 4_294_967_295)] {
        assert_eq!(integer_sqrt(value), root);
    }
    assert!(rate_worse(1, 3, 1, 4));
    assert!(!rate_worse(1, 4, 2, 8));
}

#[test]
fn hashes_are_those_of_the_canonical_bytes() {
    let key = ProfileKey::local_default();
    let encoding = key.encoding();
    assert_eq!(key.digest(), *blake3::hash(&encoding).as_bytes());
    let digest = key.digest();
    let leading = u64::from_le_bytes([
        digest[0], digest[1], digest[2], digest[3], digest[4], digest[5], digest[6], digest[7],
    ]);
    assert_eq!(key.stable_hash(), leading);
    let mut other = key.clone();
    other.protocol += 1;
    assert_ne!(other.digest(), digest);
    assert_ne!(
        movement_costs_hash(MovementCosts::default()),
        movement_costs_hash(MovementCosts {
            jump: 25,
            ..MovementCosts::default()
        })
    );
    let seeded = MoveContext {
        path_seed: 99,
        ..MoveContext::default()
    };
    assert_eq!(
        move_context_hash(&seeded),
        move_context_hash(&MoveContext::default()),
        "a route's own seed is no part of the regime"
    );
    let cautious = MoveContext {
        max_fall: 3,
        ..MoveContext::default()
    };
    assert_ne!(
        move_context_hash(&cautious),
        move_context_hash(&MoveContext::default())
    );
}

#[test]
fn duplicated_profiles_learn_apart() {
    let key = ProfileKey::local_default();
    let mut profile = AdaptiveProfile::new(key.clone());
    let settings = permissive_settings(AdaptiveMode::Shadow);
    let copy = profile.clone();
    assert!(profile.observe(
        &observation(&key, 0, 5, ObservationOutcome::Success),
        &settings
    ));
    assert_eq!((profile.data_revision, copy.data_revision), (1, 0));
    assert!(copy.validate());
}

#[test]
fn every_outcome_has_exactly_one_evidence() {
    let evidence = [
        AttributionEvidence::ReachedPlannedNode,
        AttributionEvidence::StallDetector,
        AttributionEvidence::LiveValidationFailure,
        AttributionEvidence::FellBelowPath,
        AttributionEvidence::PauseOrCancellation,
        AttributionEvidence::ExternalMovementEvent,
        AttributionEvidence::CumulativeDeadline,
    ];
    let outcomes = [
        (ObservationOutcome::Success, 0),
        (ObservationOutcome::Stalled, 1),
        (ObservationOutcome::Unsafe, 2),
        (ObservationOutcome::FellOff, 3),
        (ObservationOutcome::Interrupted(InterruptionReason::Pause), 4),
        (ObservationOutcome::Interrupted(InterruptionReason::Cancelled), 4),
        (ObservationOutcome::Interrupted(InterruptionReason::GoalChanged), 4),
        (ObservationOutcome::Interrupted(InterruptionReason::WorldChanged), 5),
        (ObservationOutcome::TimedOut, 6),
    ];
    for (outcome, expected) in outcomes {
        for (index, candidate) in evidence.into_iter().enumerate() {
            assert_eq!(attribution_matches(outcome, candidate), index == expected);
        }
    }
}
