//! Route resilience primitives.
//!
//! Conservative invalidation and bounded, scoped obstacle memory. A live
//! movement validator remains the final authority: snapshots and dependency
//! footprints describe what was observed while a route was planned, not an
//! atomic view of a changing server.
pub mod cells;
pub mod change_laws;
pub mod conservation;
pub mod dependency;
pub mod footprint;
pub mod kept_moves;
pub mod locality;
pub mod overlay;
pub mod reservation_laws;
pub mod scope;
pub mod seam_laws;
pub mod splice;
pub mod traced_moves;

pub use dependency::{
    ChunkChange, ChunkChangeKind, ChunkColumn, DependencyIndexError, InvalidationError,
    PathDependencyIndex, RouteRevisions, WorldChangeBatch,
};
pub use footprint::{transition_dependency_footprint, DependencyFootprint, DependencyOptions};
pub use overlay::{
    AppliedOverlay, DeadlockPolicy, DynamicObstacleOverlay, EvictedObstacle, ObstacleEntry,
    ObstacleKind, ObstacleOwner, ObstaclePriority, OverlayApplyError, OverlayConfigError,
    OverlayEpoch, OverlayInsert, OverlayScopeMismatch, OverlayTimeError,
};
pub use scope::{WorldScope, WorldScopeError};
pub use splice::{
    splice_path_validated, structurally_join_paths, structurally_splice_path,
    validate_structural_path, EdgeValidationError, PathEdgeValidator, PathSegment,
    PathSpliceError, UnvalidatedStructuralPath, ValidatedPath,
};
