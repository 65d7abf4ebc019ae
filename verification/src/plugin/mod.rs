//! Navigation decisions: settings, journeys, legs, and the bounded learner.
//!
//! Everything here maps plain values to plain values. The surrounding client
//! reads the world, runs the tasks, and performs the actions.
pub mod bounds;
pub mod journey_laws;
pub mod learner_laws;
pub mod leg_laws;
pub mod legs;
pub mod memory;
pub mod navigation;
pub mod runtime;
pub mod settings;
pub mod visual;

pub use runtime::{AdaptivePathfinderRuntime, ProfileInstallPolicy};
pub use settings::{
    AdaptivePathfinderSettings, NavigationGoal, NavigationPaused, NavigationRequest,
    NavigationStatus, PathfinderSettings,
};
