//! Execution controls of the path follower.
use vstd::prelude::*;

use crate::local::moves::LavaPolicy;

verus! {

/// A double-precision number by its IEEE 754 bits.
#[derive(Clone, Copy, PartialEq, Eq, Structural, Debug)]
pub struct Real64(pub u64);

/// A single-precision number by its IEEE 754 bits.
#[derive(Clone, Copy, PartialEq, Eq, Structural, Debug)]
pub struct Real32(pub u32);

/// How planned primitives are driven. Distances and angles are carried as
/// bits; the executor reads them as numbers.
#[derive(Clone, Copy, PartialEq, Eq, Structural, Debug)]
pub struct FollowerSettings {
    pub node_radius_xz: Real64,
    pub node_y_tolerance: Real64,
    pub passed_node_radius_xz: Real64,
    pub arrival_radius_xz: Real64,
    pub arrival_y_tolerance: Real64,
    pub close_enough_xz: Real64,
    pub close_enough_y: Real64,
    pub stall_ticks: u32,
    pub max_follow_ticks: u32,
    pub max_los_skip: usize,
    pub line_sample_spacing: Real64,
    pub body_half_width: Real64,
    pub jump_height_threshold: Real64,
    pub minimum_turn_degrees: Real32,
    pub turn_jitter_degrees: u64,
    pub sprint_break_chance_denominator: u64,
    pub sprint_break_min_ticks: u32,
    pub sprint_break_max_ticks: u32,
    pub escape_hop_first_min_ticks: u32,
    pub escape_hop_first_max_ticks: u32,
    pub escape_hop_second_min_ticks: u32,
    pub escape_hop_second_max_ticks: u32,
    pub yaw_wander_speed: Real32,
    pub yaw_wander_degrees: Real32,
    pub pitch_wander_speed: Real32,
    pub pitch_wander_degrees: Real32,
    pub turn_ease: Real32,
    pub pitch_clamp_degrees: Real32,
    pub minimum_lookahead: Real64,
    pub lava_policy: LavaPolicy,
}

/// The default controls: 1.0, 1.6, 2.5, 1.0, 1.2, 2.0 and 1.6 blocks for the
/// node and arrival tolerances, 0.4 blocks between samples, a body 0.35 wide
/// to either side, hops above 0.55, and a lookahead of 6.0.
pub open spec fn default_settings() -> FollowerSettings {
    FollowerSettings {
        node_radius_xz: Real64(0x3ff0_0000_0000_0000),
        node_y_tolerance: Real64(0x3ff9_9999_9999_999a),
        passed_node_radius_xz: Real64(0x4004_0000_0000_0000),
        arrival_radius_xz: Real64(0x3ff0_0000_0000_0000),
        arrival_y_tolerance: Real64(0x3ff3_3333_3333_3333),
        close_enough_xz: Real64(0x4000_0000_0000_0000),
        close_enough_y: Real64(0x3ff9_9999_9999_999a),
        stall_ticks: 30,
        max_follow_ticks: 2_400,
        max_los_skip: 12,
        line_sample_spacing: Real64(0x3fd9_9999_9999_999a),
        body_half_width: Real64(0x3fd6_6666_6666_6666),
        jump_height_threshold: Real64(0x3fe1_9999_9999_999a),
        minimum_turn_degrees: Real32(0x4208_0000),
        turn_jitter_degrees: 12,
        sprint_break_chance_denominator: 400,
        sprint_break_min_ticks: 15,
        sprint_break_max_ticks: 39,
        escape_hop_first_min_ticks: 6,
        escape_hop_first_max_ticks: 10,
        escape_hop_second_min_ticks: 18,
        escape_hop_second_max_ticks: 23,
        yaw_wander_speed: Real32(0x3d38_51ec),
        yaw_wander_degrees: Real32(0x4080_0000),
        pitch_wander_speed: Real32(0x3cf5_c28f),
        pitch_wander_degrees: Real32(0x4040_0000),
        turn_ease: Real32(0x3f00_0000),
        pitch_clamp_degrees: Real32(0x4140_0000),
        minimum_lookahead: Real64(0x4018_0000_0000_0000),
        lava_policy: LavaPolicy::Forbidden { clearance: 2 },
    }
}

impl Default for FollowerSettings {
    fn default() -> (settings: FollowerSettings)
        ensures
            settings == default_settings(),
    {
        FollowerSettings {
            node_radius_xz: Real64(0x3ff0_0000_0000_0000),
            node_y_tolerance: Real64(0x3ff9_9999_9999_999a),
            passed_node_radius_xz: Real64(0x4004_0000_0000_0000),
            arrival_radius_xz: Real64(0x3ff0_0000_0000_0000),
            arrival_y_tolerance: Real64(0x3ff3_3333_3333_3333),
            close_enough_xz: Real64(0x4000_0000_0000_0000),
            close_enough_y: Real64(0x3ff9_9999_9999_999a),
            stall_ticks: 30,
            max_follow_ticks: 2_400,
            max_los_skip: 12,
            line_sample_spacing: Real64(0x3fd9_9999_9999_999a),
            body_half_width: Real64(0x3fd6_6666_6666_6666),
            jump_height_threshold: Real64(0x3fe1_9999_9999_999a),
            minimum_turn_degrees: Real32(0x4208_0000),
            turn_jitter_degrees: 12,
            sprint_break_chance_denominator: 400,
            sprint_break_min_ticks: 15,
            sprint_break_max_ticks: 39,
            escape_hop_first_min_ticks: 6,
            escape_hop_first_max_ticks: 10,
            escape_hop_second_min_ticks: 18,
            escape_hop_second_max_ticks: 23,
            yaw_wander_speed: Real32(0x3d38_51ec),
            yaw_wander_degrees: Real32(0x4080_0000),
            pitch_wander_speed: Real32(0x3cf5_c28f),
            pitch_wander_degrees: Real32(0x4040_0000),
            turn_ease: Real32(0x3f00_0000),
            pitch_clamp_degrees: Real32(0x4140_0000),
            minimum_lookahead: Real64(0x4018_0000_0000_0000),
            lava_policy: LavaPolicy::default(),
        }
    }
}

} // verus!
