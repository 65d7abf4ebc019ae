//! Path planning and navigation decisions for block worlds.
pub mod adaptive;
pub mod adaptive_follower;
pub mod arith;
pub mod attempt_laws;
pub mod frontier;
pub mod graph;
pub mod key_map;
pub mod local;
pub mod messages;
pub mod motion_laws;
pub mod planning;
pub mod plugin;
pub mod pos;
pub mod pos_map;
pub mod resilience;
pub mod router;
pub mod text;
pub mod travel_laws;
pub mod types;

pub use adaptive::{
    follower_settings_hash, move_context_hash, movement_costs_hash, AdaptiveMode, AdaptiveProfile,
    AdaptiveRegime, AdaptiveSettings, AttributionEvidence, CostComponents, CostModelSnapshot,
    GuardSignal, InterruptionReason, JourneyMetrics, MoveAttempt, MoveFeatures, MoveObservation,
    ObservationContext, ObservationError, ObservationId, ObservationOutcome, PrimitiveId,
    ProfileError, ProfileKey, PromotionError, PromotionReport, TelemetryQueue,
};
pub use adaptive_follower::{observed_follower_settings, ObservedPathFollower};
pub use graph::{GraphEdge, Place, TravelEdge, WorldGraph};
pub use local::astar::{
    find_motion_plan_best_effort, find_path, find_path_best_effort, find_path_to_goal,
    find_path_to_goal_best_effort, RevisionKind, RevisionMismatch, SearchAssumptions,
    SearchSession, SearchSlice, SearchStatus,
};
pub use local::follower::{
    FollowerDirective, FollowerFailure, FollowerFrame, FollowerProgress, PathFollower,
};
pub use local::goal::{BlockGoal, Goal};
pub use local::line::{furthest_visible, line_walkable};
pub use local::moves::{
    lava_risk, lava_transition_allowed, LavaPolicy, Move, MoveContext, MovementCosts, WaterPolicy,
    MAX_LAVA_SCAN_RADIUS,
};
pub use local::rules::builtin::default_moves;
pub use local::rules::climb::ClimbMove;
pub use local::settings::FollowerSettings;
pub use local::world::{
    classify_state, BlockKind, SnapshotError, WorldSnapshot, WorldView, MAX_SNAPSHOT_BLOCKS,
};
pub use planning::{MotionMetadata, MotionPlan, MotionPlanError, MotionStep};
pub use plugin::{
    AdaptivePathfinderRuntime, AdaptivePathfinderSettings, NavigationGoal, NavigationPaused,
    NavigationRequest, NavigationStatus, PathfinderSettings, ProfileInstallPolicy,
};
pub use pos::BlockPos;
pub use router::{route, TravelStep};
pub use types::{Cost, MoveKind, Path, PathError, PathNode};
