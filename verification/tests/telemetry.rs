use azalea_pathfinder::adaptive::digest::{profile_file_name, telemetry_file_name};
use azalea_pathfinder::adaptive::telemetry::{
    check_loaded_profile, check_profile_size, check_saved_profile, worker_step, write_decision,
    WorkerStep, WriteDecision, WriterRefusal, WriterRegistry, MAX_PROFILE_BYTES,
    MAX_QUEUED_OBSERVATIONS, MAX_TELEMETRY_FILE_BYTES,
};
use azalea_pathfinder::adaptive::TerrainClass;
use azalea_pathfinder::{
    movement_costs_hash, AdaptiveProfile, AttributionEvidence, BlockPos, CostComponents,
    MoveAttempt, MoveFeatures, MoveObservation, MovementCosts, ObservationContext, ObservationId,
    ObservationOutcome, PrimitiveId, ProfileError, ProfileKey, TelemetryQueue,
};

fn observation(key: &ProfileKey, edge_index: u32) -> MoveObservation {
    MoveAttempt::begin(
        ObservationContext {
            profile: key.clone(),
            journey_id: 7,
            generation: 3,
            leg: 2,
            plan_revision: 11,
            world_revision: 12,
            model_revision: 0,
            planner_settings_hash: 13,
            control_settings_hash: 14,
            baseline_costs_hash: movement_costs_hash(MovementCosts::default()),
            actor_capability_hash: key.capability_hash,
            build_id: "test-build".to_owned(),
            created_unix_ms: 15,
        },
        ObservationId {
            nonce: 10 + u64::from(edge_index),
            journey_id: 7,
            generation: 3,
            leg: 2,
            edge_index,
            attempt: 0,
        },
        PrimitiveId(PrimitiveId::WALK_CARDINAL),
        MoveFeatures::new(1, 0, TerrainClass::FullBlock),
        BlockPos::new(0, 64, 0),
        BlockPos::new(1, 64, 0),
        CostComponents {
            time: 10,
            ..CostComponents::default()
        },
        5,
        100,
    )
    .unwrap()
    .finish(
        105,
        1,
        ObservationOutcome::Success,
        AttributionEvidence::ReachedPlannedNode,
    )
    .unwrap()
}

#[test]
fn a_full_or_closed_queue_counts_what_it_drops() {
    let key = ProfileKey::local_default();
    let mut queue = TelemetryQueue::with_capacity(2);
    assert!(queue.try_send(observation(&key, 0)));
    assert!(queue.try_send(observation(&key, 1)));
    assert!(!queue.try_send(observation(&key, 2)));
    assert_eq!(queue.dropped(), 1);
    assert_eq!(queue.receive().unwrap().id.edge_index, 0);
    queue.close();
    assert!(!queue.try_send(observation(&key, 3)));
    assert_eq!(queue.dropped(), 2);
    assert_eq!(queue.receive().unwrap().id.edge_index, 1);
    assert!(queue.receive().is_none());
    queue.count_dropped();
    assert_eq!(queue.dropped(), 3);
}

#[test]
fn queues_hold_between_one_and_their_bound() {
    assert_eq!(TelemetryQueue::with_capacity(0).capacity, 1);
    assert_eq!(
        TelemetryQueue::with_capacity(usize::MAX).capacity,
        MAX_QUEUED_OBSERVATIONS
    );
}

#[test]
fn writers_drain_before_they_stop() {
    assert_eq!(worker_step(true, false), WorkerStep::Write);
    assert_eq!(worker_step(true, true), WorkerStep::Write);
    assert_eq!(worker_step(false, false), WorkerStep::Idle);
    assert_eq!(worker_step(false, true), WorkerStep::Stop);
}

#[test]
fn foreign_observations_are_discarded_and_full_files_set_aside() {
    let key = ProfileKey::local_default();
    let good = observation(&key, 0);
    assert_eq!(write_decision(&good, &key, None), WriteDecision::Append);
    assert_eq!(
        write_decision(&good, &key, Some(MAX_TELEMETRY_FILE_BYTES - 1)),
        WriteDecision::Append
    );
    assert_eq!(
        write_decision(&good, &key, Some(MAX_TELEMETRY_FILE_BYTES)),
        WriteDecision::Rotate
    );
    let mut wrong = observation(&key, 1);
    wrong.context.profile.server = "another-server".to_owned();
    assert_eq!(write_decision(&wrong, &key, None), WriteDecision::Discard);
    let mut invalid = observation(&key, 2);
    invalid.schema = 0;
    assert_eq!(write_decision(&invalid, &key, None), WriteDecision::Discard);
}

#[test]
fn one_writer_owns_a_stream() {
    let key = ProfileKey::local_default();
    let mut registry = WriterRegistry::new();
    assert_eq!(registry.register(&key, "a"), Ok(()));
    assert_eq!(
        registry.register(&key, "a"),
        Err(WriterRefusal::AlreadyOwned)
    );
    assert_eq!(registry.register(&key, "b"), Ok(()));
    registry.release("a");
    assert!(!registry.is_owned("a"));
    assert!(registry.is_owned("b"));
    assert_eq!(registry.register(&key, "a"), Ok(()));
    let mut invalid = key;
    invalid.server = String::new();
    assert_eq!(
        registry.register(&invalid, "c"),
        Err(WriterRefusal::InvalidProfile)
    );
}

#[test]
fn stored_profiles_are_checked_both_ways() {
    let key = ProfileKey::local_default();
    let profile = AdaptiveProfile::new(key.clone());
    assert_eq!(check_saved_profile(&profile), Ok(()));
    assert_eq!(check_loaded_profile(&profile, &key), Ok(()));
    let mut other = key.clone();
    other.dimension = "the_end".to_owned();
    let error = check_loaded_profile(&profile, &other).unwrap_err();
    assert_eq!(error, ProfileError::Invalid);
    assert_eq!(
        error.message(),
        "profile is invalid or belongs to another context"
    );
    let mut broken = AdaptiveProfile::new(key);
    broken.data_revision = 1;
    assert_eq!(check_saved_profile(&broken), Err(ProfileError::Invalid));
    assert_eq!(check_profile_size(MAX_PROFILE_BYTES), Ok(()));
    assert_eq!(
        check_profile_size(MAX_PROFILE_BYTES + 1),
        Err(ProfileError::TooLarge)
    );
}

#[test]
fn files_are_named_by_their_profile() {
    let key = ProfileKey::local_default();
    let hex = blake3::hash(&key.encoding()).to_hex();
    assert_eq!(
        profile_file_name(&key.digest()),
        format!("profile-{hex}.json")
    );
    assert_eq!(
        telemetry_file_name(&key.digest(), 4242),
        format!("telemetry-{hex}-4242.jsonl")
    );
}
