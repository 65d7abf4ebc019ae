//! Block-level planning and path following.
pub mod astar;
pub mod clock;
pub mod course;
pub mod follow_laws;
pub mod follower;
pub mod goal;
pub mod graph_model;
pub mod line;
pub mod moves;
pub mod pace;
pub mod plan_laws;
pub mod rng;
pub mod route_laws;
pub mod rules;
pub mod settings;
pub mod sight_laws;
pub mod teleport;
pub mod terrain_laws;
pub mod tolls;
pub mod tree;
pub mod world;
