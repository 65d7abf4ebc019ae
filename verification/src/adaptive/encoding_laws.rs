//! Which settings an encoding tells apart.
use vstd::bytes;
use vstd::prelude::*;
use vstd::utf8;

use crate::adaptive::context;
use crate::adaptive::digest;
use crate::adaptive::estimate::AdaptiveSettings;
use crate::adaptive::profile;
use crate::adaptive::profile::ProfileState;
use crate::key_map;
use crate::local::moves::{LavaPolicy, MoveContext, MovementCosts, WaterPolicy};
use crate::local::settings::FollowerSettings;
use crate::text;

verus! {

/// Pieces of equal length can be told apart at the end of equal sequences.
proof fn lemma_same_back(a: Seq<u8>, b: Seq<u8>, end_a: Seq<u8>, end_b: Seq<u8>)
    requires
        a + end_a == b + end_b,
        end_a.len() == end_b.len(),
    ensures
        a == b,
        end_a == end_b,
{
    let whole = a + end_a;
    let n = whole.len() - end_a.len();
    assert(whole.take(n) =~= a);
    assert((b + end_b).take(n) =~= b);
    assert(whole.skip(n) =~= end_a);
    assert((b + end_b).skip(n) =~= end_b);
}

proof fn lemma_last_u32(a: Seq<u8>, b: Seq<u8>, m: u32, n: u32)
    requires
        a + bytes::spec_u32_to_le_bytes(m) == b + bytes::spec_u32_to_le_bytes(n),
    ensures
        a == b,
        m == n,
{
    bytes::lemma_auto_spec_u32_to_from_le_bytes();
    let (x, y) = (bytes::spec_u32_to_le_bytes(m), bytes::spec_u32_to_le_bytes(n));
    lemma_same_back(a, b, x, y);
    assert(bytes::spec_u32_from_le_bytes(x) == m);
    assert(bytes::spec_u32_from_le_bytes(y) == n);
}

proof fn lemma_last_u64(a: Seq<u8>, b: Seq<u8>, m: u64, n: u64)
    requires
        a + bytes::spec_u64_to_le_bytes(m) == b + bytes::spec_u64_to_le_bytes(n),
    ensures
        a == b,
        m == n,
{
    bytes::lemma_auto_spec_u64_to_from_le_bytes();
    let (x, y) = (bytes::spec_u64_to_le_bytes(m), bytes::spec_u64_to_le_bytes(n));
    lemma_same_back(a, b, x, y);
    assert(bytes::spec_u64_from_le_bytes(x) == m);
    assert(bytes::spec_u64_from_le_bytes(y) == n);
}

/// The bytes of costs up to one of them.
spec fn up_to(costs: MovementCosts, n: int) -> Seq<u8>
    decreases n,
{
    if n <= 0 {
        utf8::encode_utf8("azalea-pathfinder/movement-costs/v1"@)
    } else {
        up_to(costs, n - 1) + bytes::spec_u32_to_le_bytes(
            if n == 1 {
                costs.cardinal_walk
            } else if n == 2 {
                costs.diagonal_walk
            } else if n == 3 {
                costs.step
            } else if n == 4 {
                costs.jump
            } else if n == 5 {
                costs.fall_base
            } else if n == 6 {
                costs.fall_per_block
            } else if n == 7 {
                costs.parkour_per_block
            } else if n == 8 {
                costs.swim
            } else if n == 9 {
                costs.climb
            } else {
                costs.swim_exit
            },
        )
    }
}

/// Different costs have different encodings, whichever of them differs.
pub proof fn different_costs_have_different_encodings(a: MovementCosts, b: MovementCosts)
    requires
        digest::costs_bytes(a) == digest::costs_bytes(b),
    ensures
        a == b,
{
    reveal_with_fuel(up_to, 11);
    assert(digest::costs_bytes(a) == up_to(a, 10));
    assert(digest::costs_bytes(b) == up_to(b, 10));
    lemma_last_u32(up_to(a, 9), up_to(b, 9), a.swim_exit, b.swim_exit);
    lemma_last_u32(up_to(a, 8), up_to(b, 8), a.climb, b.climb);
    lemma_last_u32(up_to(a, 7), up_to(b, 7), a.swim, b.swim);
    lemma_last_u32(up_to(a, 6), up_to(b, 6), a.parkour_per_block, b.parkour_per_block);
    lemma_last_u32(up_to(a, 5), up_to(b, 5), a.fall_per_block, b.fall_per_block);
    lemma_last_u32(up_to(a, 4), up_to(b, 4), a.fall_base, b.fall_base);
    lemma_last_u32(up_to(a, 3), up_to(b, 3), a.jump, b.jump);
    lemma_last_u32(up_to(a, 2), up_to(b, 2), a.step, b.step);
    lemma_last_u32(up_to(a, 1), up_to(b, 1), a.diagonal_walk, b.diagonal_walk);
    lemma_last_u32(up_to(a, 0), up_to(b, 0), a.cardinal_walk, b.cardinal_walk);
}

proof fn lemma_codes_u64(m: u64, n: u64)
    ensures
        bytes::spec_u64_to_le_bytes(m).len() == 8,
        bytes::spec_u64_to_le_bytes(n).len() == 8,
        bytes::spec_u64_to_le_bytes(m) == bytes::spec_u64_to_le_bytes(n) ==> m == n,
{
    bytes::lemma_auto_spec_u64_to_from_le_bytes();
    assert(bytes::spec_u64_from_le_bytes(bytes::spec_u64_to_le_bytes(m)) == m);
    assert(bytes::spec_u64_from_le_bytes(bytes::spec_u64_to_le_bytes(n)) == n);
}

proof fn lemma_codes_u32(m: u32, n: u32)
    ensures
        bytes::spec_u32_to_le_bytes(m).len() == 4,
        bytes::spec_u32_to_le_bytes(n).len() == 4,
        bytes::spec_u32_to_le_bytes(m) == bytes::spec_u32_to_le_bytes(n) ==> m == n,
{
    bytes::lemma_auto_spec_u32_to_from_le_bytes();
    assert(bytes::spec_u32_to_le_bytes(m).len() == 4);
    assert(bytes::spec_u32_to_le_bytes(n).len() == 4);
    assert(bytes::spec_u32_from_le_bytes(bytes::spec_u32_to_le_bytes(m)) == m);
    assert(bytes::spec_u32_from_le_bytes(bytes::spec_u32_to_le_bytes(n)) == n);
}

proof fn lemma_last_wide(a: Seq<u8>, b: Seq<u8>, m: int, n: int)
    requires
        a + digest::wide(m) == b + digest::wide(n),
        i32::MIN <= m <= u32::MAX,
        i32::MIN <= n <= u32::MAX,
    ensures
        a == b,
        m == n,
{
    let (x, y) = (m as i64, n as i64);
    lemma_last_u64(a, b, x as u64, y as u64);
    assert(x as u64 == y as u64 ==> x == y) by (bit_vector);
}

/// Different lava policies have different encodings.
pub proof fn different_lava_policies_have_different_encodings(a: LavaPolicy, b: LavaPolicy)
    requires
        digest::lava_bytes(a) == digest::lava_bytes(b),
    ensures
        a == b,
{
    let (x, y) = (digest::lava_bytes(a), digest::lava_bytes(b));
    match a {
        LavaPolicy::Forbidden { clearance: m } => {
            assert(x[0] == 0u8);
            match b {
                LavaPolicy::Forbidden { clearance: n } => {
                    lemma_last_u32(seq![0u8], seq![0u8], m as u32, n as u32);
                    assert(m as u32 == n as u32 ==> m == n) by (bit_vector);
                },
                LavaPolicy::Penalized => {
                    assert(y[0] == 1u8);
                },
            }
        },
        LavaPolicy::Penalized => {
            assert(x[0] == 1u8);
            if let LavaPolicy::Forbidden { clearance: n } = b {
                assert(y[0] == 0u8);
            }
        },
    }
}

/// Contexts with the same encoding have the same policy: every limit, penalty
/// and policy, and the hash of the costs. Time budgets are told apart up to the
/// greatest signed number of milliseconds.
pub proof fn different_policies_have_different_encodings(
    a: &MoveContext,
    b: &MoveContext,
    costs_a: u64,
    costs_b: u64,
)
    requires
        digest::planner_bytes(a, costs_a) == digest::planner_bytes(b, costs_b),
    ensures
        costs_a == costs_b,
        a.time_budget_ms == b.time_budget_ms || (a.time_budget_ms >= i64::MAX && b.time_budget_ms
            >= i64::MAX),
        *a == (MoveContext {
            costs: a.costs,
            time_budget_ms: a.time_budget_ms,
            avoid: a.avoid,
            path_seed: a.path_seed,
            ..*b
        }),
{
    bytes::lemma_auto_spec_u64_to_from_le_bytes();
    let d = utf8::encode_utf8("azalea-pathfinder/move-context/v1"@);
    let budget_a = if a.time_budget_ms > i64::MAX {
        i64::MAX as u64
    } else {
        a.time_budget_ms
    };
    let water_a = match a.water_policy {
        WaterPolicy::Forbidden => 0u8,
        WaterPolicy::Penalized => 1u8,
    };
    let budget_b = if b.time_budget_ms > i64::MAX {
        i64::MAX as u64
    } else {
        b.time_budget_ms
    };
    let water_b = match b.water_policy {
        WaterPolicy::Forbidden => 0u8,
        WaterPolicy::Penalized => 1u8,
    };
    let a0 = d + bytes::spec_u64_to_le_bytes(costs_a);
    let a1 = a0 + digest::wide(a.max_fall as int);
    let a2 = a1 + digest::wide(a.goal_tolerance as int);
    let a3 = a2 + bytes::spec_u64_to_le_bytes(a.max_expansions as u64);
    let a4 = a3 + bytes::spec_u64_to_le_bytes(budget_a);
    let a5 = a4 + digest::wide(a.fall_damage_penalty as int);
    let a6 = a5 + digest::wide(a.wall_penalty as int);
    let a7 = a6 + digest::wide(a.lava_penalty as int);
    let a8 = a7 + digest::wide(a.lava_proximity_radius as int);
    let a9 = a8 + digest::wide(a.lava_proximity_penalty as int);
    let a10 = a9 + digest::wide(a.water_penalty as int);
    let a11 = a10 + digest::wide(a.grazing_step_penalty as int);
    assert(a11.len() == d.len() + 96);
    assert(digest::planner_bytes(a, costs_a) == a11 + digest::lava_bytes(a.lava_policy) + seq![water_a]);
    let b0 = d + bytes::spec_u64_to_le_bytes(costs_b);
    let b1 = b0 + digest::wide(b.max_fall as int);
    let b2 = b1 + digest::wide(b.goal_tolerance as int);
    let b3 = b2 + bytes::spec_u64_to_le_bytes(b.max_expansions as u64);
    let b4 = b3 + bytes::spec_u64_to_le_bytes(budget_b);
    let b5 = b4 + digest::wide(b.fall_damage_penalty as int);
    let b6 = b5 + digest::wide(b.wall_penalty as int);
    let b7 = b6 + digest::wide(b.lava_penalty as int);
    let b8 = b7 + digest::wide(b.lava_proximity_radius as int);
    let b9 = b8 + digest::wide(b.lava_proximity_penalty as int);
    let b10 = b9 + digest::wide(b.water_penalty as int);
    let b11 = b10 + digest::wide(b.grazing_step_penalty as int);
    assert(b11.len() == d.len() + 96);
    assert(digest::planner_bytes(b, costs_b) == b11 + digest::lava_bytes(b.lava_policy) + seq![water_b]);
    let (lava_a, lava_b) = (digest::lava_bytes(a.lava_policy), digest::lava_bytes(b.lava_policy));
    lemma_same_back(a11 + lava_a, b11 + lava_b, seq![water_a], seq![water_b]);
    assert(seq![water_a][0] == seq![water_b][0]);
    lemma_same_back(a11, b11, lava_a, lava_b);
    different_lava_policies_have_different_encodings(a.lava_policy, b.lava_policy);
    lemma_last_wide(a10, b10, a.grazing_step_penalty as int, b.grazing_step_penalty as int);
    lemma_last_wide(a9, b9, a.water_penalty as int, b.water_penalty as int);
    lemma_last_wide(a8, b8, a.lava_proximity_penalty as int, b.lava_proximity_penalty as int);
    lemma_last_wide(a7, b7, a.lava_proximity_radius as int, b.lava_proximity_radius as int);
    lemma_last_wide(a6, b6, a.lava_penalty as int, b.lava_penalty as int);
    lemma_last_wide(a5, b5, a.wall_penalty as int, b.wall_penalty as int);
    lemma_last_wide(a4, b4, a.fall_damage_penalty as int, b.fall_damage_penalty as int);
    lemma_last_u64(a3, b3, budget_a, budget_b);
    lemma_last_u64(a2, b2, a.max_expansions as u64, b.max_expansions as u64);
    lemma_last_wide(a1, b1, a.goal_tolerance as int, b.goal_tolerance as int);
    lemma_last_wide(a0, b0, a.max_fall as int, b.max_fall as int);
    lemma_last_u64(d, d, costs_a, costs_b);
}

proof fn lemma_distances(a: FollowerSettings, b: FollowerSettings)
    ensures
        digest::distance_bytes(a).len() == 88,
        digest::distance_bytes(b).len() == 88,
        digest::distance_bytes(a) == digest::distance_bytes(b) ==> {
            &&& a.node_radius_xz == b.node_radius_xz
            &&& a.node_y_tolerance == b.node_y_tolerance
            &&& a.passed_node_radius_xz == b.passed_node_radius_xz
            &&& a.arrival_radius_xz == b.arrival_radius_xz
            &&& a.arrival_y_tolerance == b.arrival_y_tolerance
            &&& a.close_enough_xz == b.close_enough_xz
            &&& a.close_enough_y == b.close_enough_y
            &&& a.line_sample_spacing == b.line_sample_spacing
            &&& a.body_half_width == b.body_half_width
            &&& a.jump_height_threshold == b.jump_height_threshold
            &&& a.minimum_lookahead == b.minimum_lookahead
        },
{
    bytes::lemma_auto_spec_u64_to_from_le_bytes();
    let a0 = bytes::spec_u64_to_le_bytes(a.node_radius_xz.0);
    let a1 = a0 + bytes::spec_u64_to_le_bytes(a.node_y_tolerance.0);
    let a2 = a1 + bytes::spec_u64_to_le_bytes(a.passed_node_radius_xz.0);
    let a3 = a2 + bytes::spec_u64_to_le_bytes(a.arrival_radius_xz.0);
    let a4 = a3 + bytes::spec_u64_to_le_bytes(a.arrival_y_tolerance.0);
    let a5 = a4 + bytes::spec_u64_to_le_bytes(a.close_enough_xz.0);
    let a6 = a5 + bytes::spec_u64_to_le_bytes(a.close_enough_y.0);
    let a7 = a6 + bytes::spec_u64_to_le_bytes(a.line_sample_spacing.0);
    let a8 = a7 + bytes::spec_u64_to_le_bytes(a.body_half_width.0);
    let a9 = a8 + bytes::spec_u64_to_le_bytes(a.jump_height_threshold.0);
    let a10 = a9 + bytes::spec_u64_to_le_bytes(a.minimum_lookahead.0);
    let b0 = bytes::spec_u64_to_le_bytes(b.node_radius_xz.0);
    let b1 = b0 + bytes::spec_u64_to_le_bytes(b.node_y_tolerance.0);
    let b2 = b1 + bytes::spec_u64_to_le_bytes(b.passed_node_radius_xz.0);
    let b3 = b2 + bytes::spec_u64_to_le_bytes(b.arrival_radius_xz.0);
    let b4 = b3 + bytes::spec_u64_to_le_bytes(b.arrival_y_tolerance.0);
    let b5 = b4 + bytes::spec_u64_to_le_bytes(b.close_enough_xz.0);
    let b6 = b5 + bytes::spec_u64_to_le_bytes(b.close_enough_y.0);
    let b7 = b6 + bytes::spec_u64_to_le_bytes(b.line_sample_spacing.0);
    let b8 = b7 + bytes::spec_u64_to_le_bytes(b.body_half_width.0);
    let b9 = b8 + bytes::spec_u64_to_le_bytes(b.jump_height_threshold.0);
    let b10 = b9 + bytes::spec_u64_to_le_bytes(b.minimum_lookahead.0);
    assert(digest::distance_bytes(a) == a10);
    assert(digest::distance_bytes(b) == b10);
    if digest::distance_bytes(a) == digest::distance_bytes(b) {
        lemma_last_u64(a9, b9, a.minimum_lookahead.0, b.minimum_lookahead.0);
        lemma_last_u64(a8, b8, a.jump_height_threshold.0, b.jump_height_threshold.0);
        lemma_last_u64(a7, b7, a.body_half_width.0, b.body_half_width.0);
        lemma_last_u64(a6, b6, a.line_sample_spacing.0, b.line_sample_spacing.0);
        lemma_last_u64(a5, b5, a.close_enough_y.0, b.close_enough_y.0);
        lemma_last_u64(a4, b4, a.close_enough_xz.0, b.close_enough_xz.0);
        lemma_last_u64(a3, b3, a.arrival_y_tolerance.0, b.arrival_y_tolerance.0);
        lemma_last_u64(a2, b2, a.arrival_radius_xz.0, b.arrival_radius_xz.0);
        lemma_last_u64(a1, b1, a.passed_node_radius_xz.0, b.passed_node_radius_xz.0);
        lemma_last_u64(a0, b0, a.node_y_tolerance.0, b.node_y_tolerance.0);
        lemma_codes_u64(a.node_radius_xz.0, b.node_radius_xz.0);
    }
}

proof fn lemma_angles(a: FollowerSettings, b: FollowerSettings)
    ensures
        digest::angle_bytes(a).len() == 28,
        digest::angle_bytes(b).len() == 28,
        digest::angle_bytes(a) == digest::angle_bytes(b) ==> {
            &&& a.minimum_turn_degrees == b.minimum_turn_degrees
            &&& a.yaw_wander_speed == b.yaw_wander_speed
            &&& a.yaw_wander_degrees == b.yaw_wander_degrees
            &&& a.pitch_wander_speed == b.pitch_wander_speed
            &&& a.pitch_wander_degrees == b.pitch_wander_degrees
            &&& a.turn_ease == b.turn_ease
            &&& a.pitch_clamp_degrees == b.pitch_clamp_degrees
        },
{
    bytes::lemma_auto_spec_u32_to_from_le_bytes();
    let a0 = bytes::spec_u32_to_le_bytes(a.minimum_turn_degrees.0);
    let a1 = a0 + bytes::spec_u32_to_le_bytes(a.yaw_wander_speed.0);
    let a2 = a1 + bytes::spec_u32_to_le_bytes(a.yaw_wander_degrees.0);
    let a3 = a2 + bytes::spec_u32_to_le_bytes(a.pitch_wander_speed.0);
    let a4 = a3 + bytes::spec_u32_to_le_bytes(a.pitch_wander_degrees.0);
    let a5 = a4 + bytes::spec_u32_to_le_bytes(a.turn_ease.0);
    let a6 = a5 + bytes::spec_u32_to_le_bytes(a.pitch_clamp_degrees.0);
    let b0 = bytes::spec_u32_to_le_bytes(b.minimum_turn_degrees.0);
    let b1 = b0 + bytes::spec_u32_to_le_bytes(b.yaw_wander_speed.0);
    let b2 = b1 + bytes::spec_u32_to_le_bytes(b.yaw_wander_degrees.0);
    let b3 = b2 + bytes::spec_u32_to_le_bytes(b.pitch_wander_speed.0);
    let b4 = b3 + bytes::spec_u32_to_le_bytes(b.pitch_wander_degrees.0);
    let b5 = b4 + bytes::spec_u32_to_le_bytes(b.turn_ease.0);
    let b6 = b5 + bytes::spec_u32_to_le_bytes(b.pitch_clamp_degrees.0);
    assert(digest::angle_bytes(a) == a6);
    assert(digest::angle_bytes(b) == b6);
    if digest::angle_bytes(a) == digest::angle_bytes(b) {
        lemma_last_u32(a5, b5, a.pitch_clamp_degrees.0, b.pitch_clamp_degrees.0);
        lemma_last_u32(a4, b4, a.turn_ease.0, b.turn_ease.0);
        lemma_last_u32(a3, b3, a.pitch_wander_degrees.0, b.pitch_wander_degrees.0);
        lemma_last_u32(a2, b2, a.pitch_wander_speed.0, b.pitch_wander_speed.0);
        lemma_last_u32(a1, b1, a.yaw_wander_degrees.0, b.yaw_wander_degrees.0);
        lemma_last_u32(a0, b0, a.yaw_wander_speed.0, b.yaw_wander_speed.0);
        lemma_codes_u32(a.minimum_turn_degrees.0, b.minimum_turn_degrees.0);
    }
}

proof fn lemma_ticks(a: FollowerSettings, b: FollowerSettings)
    ensures
        digest::tick_bytes(a).len() == 88,
        digest::tick_bytes(b).len() == 88,
        digest::tick_bytes(a) == digest::tick_bytes(b) ==> {
            &&& a.stall_ticks == b.stall_ticks
            &&& a.max_follow_ticks == b.max_follow_ticks
            &&& a.max_los_skip == b.max_los_skip
            &&& a.turn_jitter_degrees == b.turn_jitter_degrees
            &&& a.sprint_break_chance_denominator == b.sprint_break_chance_denominator
            &&& a.sprint_break_min_ticks == b.sprint_break_min_ticks
            &&& a.sprint_break_max_ticks == b.sprint_break_max_ticks
            &&& a.escape_hop_first_min_ticks == b.escape_hop_first_min_ticks
            &&& a.escape_hop_first_max_ticks == b.escape_hop_first_max_ticks
            &&& a.escape_hop_second_min_ticks == b.escape_hop_second_min_ticks
            &&& a.escape_hop_second_max_ticks == b.escape_hop_second_max_ticks
        },
{
    bytes::lemma_auto_spec_u64_to_from_le_bytes();
    let a0 = bytes::spec_u64_to_le_bytes(a.stall_ticks as u64);
    let a1 = a0 + bytes::spec_u64_to_le_bytes(a.max_follow_ticks as u64);
    let a2 = a1 + bytes::spec_u64_to_le_bytes(a.max_los_skip as u64);
    let a3 = a2 + bytes::spec_u64_to_le_bytes(a.turn_jitter_degrees);
    let a4 = a3 + bytes::spec_u64_to_le_bytes(a.sprint_break_chance_denominator);
    let a5 = a4 + bytes::spec_u64_to_le_bytes(a.sprint_break_min_ticks as u64);
    let a6 = a5 + bytes::spec_u64_to_le_bytes(a.sprint_break_max_ticks as u64);
    let a7 = a6 + bytes::spec_u64_to_le_bytes(a.escape_hop_first_min_ticks as u64);
    let a8 = a7 + bytes::spec_u64_to_le_bytes(a.escape_hop_first_max_ticks as u64);
    let a9 = a8 + bytes::spec_u64_to_le_bytes(a.escape_hop_second_min_ticks as u64);
    let a10 = a9 + bytes::spec_u64_to_le_bytes(a.escape_hop_second_max_ticks as u64);
    let b0 = bytes::spec_u64_to_le_bytes(b.stall_ticks as u64);
    let b1 = b0 + bytes::spec_u64_to_le_bytes(b.max_follow_ticks as u64);
    let b2 = b1 + bytes::spec_u64_to_le_bytes(b.max_los_skip as u64);
    let b3 = b2 + bytes::spec_u64_to_le_bytes(b.turn_jitter_degrees);
    let b4 = b3 + bytes::spec_u64_to_le_bytes(b.sprint_break_chance_denominator);
    let b5 = b4 + bytes::spec_u64_to_le_bytes(b.sprint_break_min_ticks as u64);
    let b6 = b5 + bytes::spec_u64_to_le_bytes(b.sprint_break_max_ticks as u64);
    let b7 = b6 + bytes::spec_u64_to_le_bytes(b.escape_hop_first_min_ticks as u64);
    let b8 = b7 + bytes::spec_u64_to_le_bytes(b.escape_hop_first_max_ticks as u64);
    let b9 = b8 + bytes::spec_u64_to_le_bytes(b.escape_hop_second_min_ticks as u64);
    let b10 = b9 + bytes::spec_u64_to_le_bytes(b.escape_hop_second_max_ticks as u64);
    assert(digest::tick_bytes(a) == a10);
    assert(digest::tick_bytes(b) == b10);
    if digest::tick_bytes(a) == digest::tick_bytes(b) {
        lemma_last_u64(a9, b9, a.escape_hop_second_max_ticks as u64, b.escape_hop_second_max_ticks as u64);
        lemma_last_u64(a8, b8, a.escape_hop_second_min_ticks as u64, b.escape_hop_second_min_ticks as u64);
        lemma_last_u64(a7, b7, a.escape_hop_first_max_ticks as u64, b.escape_hop_first_max_ticks as u64);
        lemma_last_u64(a6, b6, a.escape_hop_first_min_ticks as u64, b.escape_hop_first_min_ticks as u64);
        lemma_last_u64(a5, b5, a.sprint_break_max_ticks as u64, b.sprint_break_max_ticks as u64);
        lemma_last_u64(a4, b4, a.sprint_break_min_ticks as u64, b.sprint_break_min_ticks as u64);
        lemma_last_u64(a3, b3, a.sprint_break_chance_denominator, b.sprint_break_chance_denominator);
        lemma_last_u64(a2, b2, a.turn_jitter_degrees, b.turn_jitter_degrees);
        lemma_last_u64(a1, b1, a.max_los_skip as u64, b.max_los_skip as u64);
        lemma_last_u64(a0, b0, a.max_follow_ticks as u64, b.max_follow_ticks as u64);
        lemma_codes_u64(a.stall_ticks as u64, b.stall_ticks as u64);
    }
}

/// Different controls have different encodings, whichever of them differs.
pub proof fn different_controls_have_different_encodings(a: FollowerSettings, b: FollowerSettings)
    requires
        digest::control_bytes(a) == digest::control_bytes(b),
    ensures
        a == b,
{
    let d = utf8::encode_utf8("azalea-pathfinder/follower-settings/v1"@);
    lemma_distances(a, b);
    lemma_angles(a, b);
    lemma_ticks(a, b);
    let (da, db) = (d + digest::distance_bytes(a), d + digest::distance_bytes(b));
    let (aa, ab) = (da + digest::angle_bytes(a), db + digest::angle_bytes(b));
    let (ta, tb) = (aa + digest::tick_bytes(a), ab + digest::tick_bytes(b));
    let (la, lb) = (digest::lava_bytes(a.lava_policy), digest::lava_bytes(b.lava_policy));
    assert(ta.len() == tb.len());
    assert((ta + la).len() == (tb + lb).len());
    lemma_same_back(ta, tb, la, lb);
    different_lava_policies_have_different_encodings(a.lava_policy, b.lava_policy);
    lemma_same_back(aa, ab, digest::tick_bytes(a), digest::tick_bytes(b));
    lemma_same_back(da, db, digest::angle_bytes(a), digest::angle_bytes(b));
    lemma_same_back(d, d, digest::distance_bytes(a), digest::distance_bytes(b));
}

/// Different learning settings have different encodings, of the same length.
pub proof fn different_learning_settings_have_different_encodings(
    a: AdaptiveSettings,
    b: AdaptiveSettings,
)
    ensures
        profile::settings_bytes(a).len() == profile::settings_bytes(b).len(),
        profile::settings_bytes(a) == profile::settings_bytes(b) ==> a == b,
{
    bytes::lemma_auto_spec_u32_to_from_le_bytes();
    bytes::lemma_auto_spec_u64_to_from_le_bytes();
    let a0 = seq![profile::mode_code(a.mode)];
    let a1 = a0 + bytes::spec_u32_to_le_bytes(a.min_samples);
    let a2 = a1 + bytes::spec_u64_to_le_bytes(a.max_buckets as u64);
    let a3 = a2 + bytes::spec_u32_to_le_bytes(a.max_step_percent);
    let a4 = a3 + bytes::spec_u32_to_le_bytes(a.minimum_multiplier_ppm);
    let a5 = a4 + bytes::spec_u32_to_le_bytes(a.maximum_multiplier_ppm);
    let a6 = a5 + bytes::spec_u32_to_le_bytes(a.maximum_failure_upper_ppm);
    let a7 = a6 + bytes::spec_u32_to_le_bytes(a.minimum_evaluation_journeys);
    let a8 = a7 + bytes::spec_u32_to_le_bytes(a.maximum_p95_regression_percent);
    let b0 = seq![profile::mode_code(b.mode)];
    let b1 = b0 + bytes::spec_u32_to_le_bytes(b.min_samples);
    let b2 = b1 + bytes::spec_u64_to_le_bytes(b.max_buckets as u64);
    let b3 = b2 + bytes::spec_u32_to_le_bytes(b.max_step_percent);
    let b4 = b3 + bytes::spec_u32_to_le_bytes(b.minimum_multiplier_ppm);
    let b5 = b4 + bytes::spec_u32_to_le_bytes(b.maximum_multiplier_ppm);
    let b6 = b5 + bytes::spec_u32_to_le_bytes(b.maximum_failure_upper_ppm);
    let b7 = b6 + bytes::spec_u32_to_le_bytes(b.minimum_evaluation_journeys);
    let b8 = b7 + bytes::spec_u32_to_le_bytes(b.maximum_p95_regression_percent);
    assert(profile::settings_bytes(a) == a8);
    assert(profile::settings_bytes(b) == b8);
    assert(a8.len() == 37);
    assert(b8.len() == 37);
    if profile::settings_bytes(a) == profile::settings_bytes(b) {
        lemma_last_u32(a7, b7, a.maximum_p95_regression_percent, b.maximum_p95_regression_percent);
        lemma_last_u32(a6, b6, a.minimum_evaluation_journeys, b.minimum_evaluation_journeys);
        lemma_last_u32(a5, b5, a.maximum_failure_upper_ppm, b.maximum_failure_upper_ppm);
        lemma_last_u32(a4, b4, a.maximum_multiplier_ppm, b.maximum_multiplier_ppm);
        lemma_last_u32(a3, b3, a.minimum_multiplier_ppm, b.minimum_multiplier_ppm);
        lemma_last_u32(a2, b2, a.max_step_percent, b.max_step_percent);
        lemma_last_u64(a1, b1, a.max_buckets as u64, b.max_buckets as u64);
        lemma_last_u32(a0, b0, a.min_samples, b.min_samples);
        assert(a0[0] == b0[0]);
        assert(a.mode == b.mode);
    }
}

/// Different regimes have different encodings, whatever follows them.
proof fn lemma_regimes(
    a: Option<context::Regime>,
    b: Option<context::Regime>,
    rest_a: Seq<u8>,
    rest_b: Seq<u8>,
)
    requires
        profile::regime_bytes(a) + rest_a == profile::regime_bytes(b) + rest_b,
        a matches Some(regime) ==> text::is_context_text(regime.build_id),
        b matches Some(regime) ==> text::is_context_text(regime.build_id),
    ensures
        a == b,
        rest_a == rest_b,
{
    let (x, y) = (profile::regime_bytes(a), profile::regime_bytes(b));
    assert((x + rest_a)[0] == (y + rest_b)[0]);
    lemma_regime_parts(a, rest_a);
    lemma_regime_parts(b, rest_b);
    match (a, b) {
        (Some(r), Some(s)) => {
            let (ra, rb) = (regime_rest(r, rest_a), regime_rest(s, rest_b));
            digest::lemma_same_front(
                seq![1u8],
                seq![1u8],
                digest::text_bytes(r.build_id) + ra,
                digest::text_bytes(s.build_id) + rb,
            );
            digest::lemma_same_text(r.build_id, s.build_id, ra, rb);
            let p = bytes::spec_u64_to_le_bytes(r.planner_settings_hash);
            let q = bytes::spec_u64_to_le_bytes(s.planner_settings_hash);
            let (c, d) = (
                bytes::spec_u64_to_le_bytes(r.control_settings_hash),
                bytes::spec_u64_to_le_bytes(s.control_settings_hash),
            );
            let (e, f) = (
                bytes::spec_u64_to_le_bytes(r.baseline_costs_hash),
                bytes::spec_u64_to_le_bytes(s.baseline_costs_hash),
            );
            let (g, h) = (
                bytes::spec_u64_to_le_bytes(r.actor_capability_hash),
                bytes::spec_u64_to_le_bytes(s.actor_capability_hash),
            );
            lemma_codes_u64(r.planner_settings_hash, s.planner_settings_hash);
            lemma_codes_u64(r.control_settings_hash, s.control_settings_hash);
            lemma_codes_u64(r.baseline_costs_hash, s.baseline_costs_hash);
            lemma_codes_u64(r.actor_capability_hash, s.actor_capability_hash);
            digest::lemma_same_front(p, q, c + (e + (g + rest_a)), d + (f + (h + rest_b)));
            digest::lemma_same_front(c, d, e + (g + rest_a), f + (h + rest_b));
            digest::lemma_same_front(e, f, g + rest_a, h + rest_b);
            digest::lemma_same_front(g, h, rest_a, rest_b);
        },
        (None, None) => {
            digest::lemma_same_front(seq![0u8], seq![0u8], rest_a, rest_b);
        },
        _ => {},
    }
}

/// What follows the build in the bytes of a regime.
spec fn regime_rest(r: context::Regime, rest: Seq<u8>) -> Seq<u8> {
    bytes::spec_u64_to_le_bytes(r.planner_settings_hash) + (bytes::spec_u64_to_le_bytes(
        r.control_settings_hash,
    ) + (bytes::spec_u64_to_le_bytes(r.baseline_costs_hash) + (bytes::spec_u64_to_le_bytes(
        r.actor_capability_hash,
    ) + rest)))
}

proof fn lemma_regime_parts(regime: Option<context::Regime>, rest: Seq<u8>)
    ensures
        match regime {
            Some(r) => profile::regime_bytes(regime) + rest == seq![1u8] + (digest::text_bytes(
                r.build_id,
            ) + regime_rest(r, rest)) && (profile::regime_bytes(regime) + rest)[0] == 1,
            None => profile::regime_bytes(regime) + rest == seq![0u8] + rest && (
            profile::regime_bytes(regime) + rest)[0] == 0,
        },
{
    if let Some(r) = regime {
        assert(profile::regime_bytes(regime) + rest =~= seq![1u8] + (digest::text_bytes(r.build_id)
            + regime_rest(r, rest)));
    }
}

proof fn lemma_models(a: Seq<(u128, u32)>, b: Seq<(u128, u32)>)
    requires
        profile::model_bytes(a) == profile::model_bytes(b),
        forall|i: int| 0 <= i < a.len() ==> (#[trigger] a[i]).0 <= u64::MAX,
        forall|i: int| 0 <= i < b.len() ==> (#[trigger] b[i]).0 <= u64::MAX,
    ensures
        a == b,
    decreases a.len(),
{
    lemma_model_len(a);
    lemma_model_len(b);
    if a.len() > 0 {
        let (x, y) = (a.drop_last(), b.drop_last());
        let (p, q) = (a.last(), b.last());
        assert(p == a[a.len() - 1] && q == b[b.len() - 1]);
        lemma_last_u32(
            profile::model_bytes(x) + bytes::spec_u64_to_le_bytes(p.0 as u64),
            profile::model_bytes(y) + bytes::spec_u64_to_le_bytes(q.0 as u64),
            p.1,
            q.1,
        );
        lemma_last_u64(profile::model_bytes(x), profile::model_bytes(y), p.0 as u64, q.0 as u64);
        assert forall|i: int| 0 <= i < x.len() implies (#[trigger] x[i]).0 <= u64::MAX by {
            assert(x[i] == a[i]);
        }
        assert forall|i: int| 0 <= i < y.len() implies (#[trigger] y[i]).0 <= u64::MAX by {
            assert(y[i] == b[i]);
        }
        lemma_models(x, y);
        assert(a =~= x.push(p));
        assert(b =~= y.push(q));
    } else {
        assert(a =~= b);
    }
}

proof fn lemma_model_len(a: Seq<(u128, u32)>)
    ensures
        profile::model_bytes(a).len() == 12 * a.len(),
    decreases a.len(),
{
    if a.len() > 0 {
        lemma_model_len(a.drop_last());
        lemma_codes_u64(a.last().0 as u64, 0);
        lemma_codes_u32(a.last().1, 0);
    }
}

/// A report names one candidate: profiles whose candidates have the same bytes
/// agree in everything that a report vouches for, which is their telemetry, the
/// model they run, the settings, the regime, and every multiplier.
pub proof fn different_candidates_have_different_encodings(
    a: ProfileState,
    b: ProfileState,
    with_a: AdaptiveSettings,
    with_b: AdaptiveSettings,
)
    requires
        profile::candidate_bytes(a, with_a) == profile::candidate_bytes(b, with_b),
        a.regime matches Some(regime) ==> text::is_context_text(regime.build_id),
        b.regime matches Some(regime) ==> text::is_context_text(regime.build_id),
        forall|i: int|
            0 <= i < key_map::in_order(profile::candidate(a, with_a)).len() ==> (
            #[trigger] key_map::in_order(profile::candidate(a, with_a))[i]).0 <= u64::MAX,
        forall|i: int|
            0 <= i < key_map::in_order(profile::candidate(b, with_b)).len() ==> (
            #[trigger] key_map::in_order(profile::candidate(b, with_b))[i]).0 <= u64::MAX,
    ensures
        a.schema == b.schema,
        a.data_revision == b.data_revision,
        a.active.revision == b.active.revision,
        with_a == with_b,
        a.regime == b.regime,
        key_map::in_order(profile::candidate(a, with_a)) == key_map::in_order(
            profile::candidate(b, with_b),
        ),
{
    bytes::lemma_auto_spec_u16_to_from_le_bytes();
    bytes::lemma_auto_spec_u64_to_from_le_bytes();
    different_learning_settings_have_different_encodings(with_a, with_b);
    let d = utf8::encode_utf8("azalea-pathfinder/candidate-model/v2"@);
    let (xa, xb) = (bytes::spec_u16_to_le_bytes(a.schema), bytes::spec_u16_to_le_bytes(b.schema));
    let (a0, b0) = (d + xa, d + xb);
    let (a1, b1) = (
        a0 + bytes::spec_u64_to_le_bytes(a.data_revision),
        b0 + bytes::spec_u64_to_le_bytes(b.data_revision),
    );
    let (a2, b2) = (
        a1 + bytes::spec_u64_to_le_bytes(a.active.revision),
        b1 + bytes::spec_u64_to_le_bytes(b.active.revision),
    );
    let (sa, sb) = (profile::settings_bytes(with_a), profile::settings_bytes(with_b));
    let (ra, rb) = (profile::regime_bytes(a.regime), profile::regime_bytes(b.regime));
    let (ia, ib) = (
        key_map::in_order(profile::candidate(a, with_a)),
        key_map::in_order(profile::candidate(b, with_b)),
    );
    let (ma, mb) = (profile::model_bytes(ia), profile::model_bytes(ib));
    assert(profile::candidate_bytes(a, with_a) =~= (a2 + sa) + (ra + ma));
    assert(profile::candidate_bytes(b, with_b) =~= (b2 + sb) + (rb + mb));
    assert((a2 + sa).len() == (b2 + sb).len());
    digest::lemma_same_front(a2 + sa, b2 + sb, ra + ma, rb + mb);
    lemma_regimes(a.regime, b.regime, ma, mb);
    lemma_models(ia, ib);
    lemma_same_back(a2, b2, sa, sb);
    lemma_last_u64(a1, b1, a.active.revision, b.active.revision);
    lemma_last_u64(a0, b0, a.data_revision, b.data_revision);
    lemma_same_back(d, d, xa, xb);
    assert(bytes::spec_u16_from_le_bytes(xa) == a.schema);
    assert(bytes::spec_u16_from_le_bytes(xb) == b.schema);
}

} // verus!
