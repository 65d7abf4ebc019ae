//! The built-in movement rules.
pub mod bound;
pub mod builtin;
pub mod climb;
pub mod drop_laws;
pub mod fall;
pub mod flight_laws;
pub mod footing;
pub mod leap_laws;
pub mod menu;
pub mod offer;
pub mod parkour;
pub mod step_laws;
pub mod swim;
pub mod walk;
