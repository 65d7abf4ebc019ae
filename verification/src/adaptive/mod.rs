//! Bounded telemetry and conservative online calibration.
//!
//! Learning is deliberately separated into three stages:
//!
//! 1. execution produces an exactly-once [`observation::MoveObservation`];
//! 2. an adaptive profile builds a shadow candidate from bounded,
//!    context-specific relative multipliers;
//! 3. an explicit non-regression report promotes that candidate to the
//!    known-good model used by future navigation legs.
//!
//! Feasibility and safety constraints are not represented in the learned
//! model, so calibration cannot make lava legal, increase a survivable fall,
//! or relax collision validation.
pub mod context;
pub mod digest;
pub mod encoding_laws;
pub mod estimate;
pub mod estimate_laws;
pub mod features;
pub mod learning_laws;
pub mod model;
pub mod observation;
pub mod observation_laws;
pub mod profile;
pub mod profile_laws;
pub mod promotion;
pub mod telemetry;

pub use context::{
    AdaptiveRegime, AttributionEvidence, InterruptionReason, ObservationContext, ObservationId,
    ObservationOutcome, ProfileKey,
};
pub use digest::{follower_settings_hash, move_context_hash, movement_costs_hash};
pub use estimate::AdaptiveSettings;
pub use features::{CostComponents, MoveFeatures, PrimitiveId, TerrainClass};
pub use model::{AdaptiveMode, CostModelSnapshot};
pub use observation::{MoveAttempt, MoveObservation, NonceAllocator, ObservationError};
pub use profile::AdaptiveProfile;
pub use promotion::{GuardSignal, JourneyMetrics, PromotionError, PromotionReport};
pub use telemetry::{ProfileError, TelemetryQueue};
