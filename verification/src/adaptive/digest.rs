//! Canonical encodings and their digests.
//!
//! Everything that names a model or a regime is first laid out as bytes, in a
//! fixed order with length-prefixed text, and then hashed.
use vstd::bytes;
use vstd::bytes::{u16_to_le_bytes, u32_to_le_bytes, u64_from_le_bytes, u64_to_le_bytes};
use vstd::prelude::*;
use vstd::utf8;

use crate::adaptive::context;
use crate::adaptive::context::ProfileKey;
use crate::local::moves::{LavaPolicy, MoveContext, MovementCosts, WaterPolicy};
use crate::local::settings::FollowerSettings;
use crate::text;
use crate::text::push_hexadecimal;

verus! {

/// The BLAKE3 digest of some bytes.
pub uninterp spec fn blake3_digest(input: Seq<u8>) -> Seq<u8>;

/// Calls `blake3::hash`, which digests a whole input into 32 bytes. The digest
/// is a function of the input bytes alone.
#[verifier::external_body]
pub(crate) fn blake3_hash(input: &[u8]) -> (digest: [u8; 32])
    ensures
        digest@ == blake3_digest(input@),
{
    *blake3::hash(input).as_bytes()
}

/// The first eight bytes of a digest as a little-endian number.
pub open spec fn leading_number(digest: Seq<u8>) -> u64 {
    bytes::spec_u64_from_le_bytes(digest.take(8))
}

pub fn leading_u64(digest: &[u8; 32]) -> (n: u64)
    ensures
        n == leading_number(digest@),
{
    let mut head: Vec<u8> = Vec::new();
    let mut i: usize = 0;
    while i < 8
        invariant
            i <= 8,
            head@ == digest@.take(i as int),
        decreases 8 - i,
    {
        head.push(digest[i]);
        i += 1;
        assert(digest@.take(i as int) =~= digest@.take(i - 1).push(digest@[i - 1]));
    }
    u64_from_le_bytes(head.as_slice())
}

/// The short hash of an encoding: the head of its digest.
pub open spec fn short_hash(encoding: Seq<u8>) -> u64 {
    leading_number(blake3_digest(encoding))
}

pub(crate) fn hash_bytes(encoding: &Vec<u8>) -> (hash: u64)
    ensures
        hash == short_hash(encoding@),
{
    let digest = blake3_hash(encoding.as_slice());
    leading_u64(&digest)
}

/// Text as its byte length and its bytes.
pub open spec fn text_bytes(text: Seq<char>) -> Seq<u8> {
    bytes::spec_u32_to_le_bytes(text::utf8_len(text) as u32) + utf8::encode_utf8(text)
}

pub(crate) fn put_bytes(out: &mut Vec<u8>, more: &[u8])
    ensures
        final(out)@ == old(out)@ + more@,
{
    let mut i: usize = 0;
    assert(out@ =~= old(out)@ + more@.take(0));
    while i < more.len()
        invariant
            i <= more@.len(),
            out@ == old(out)@ + more@.take(i as int),
        decreases more@.len() - i,
    {
        out.push(more[i]);
        i += 1;
        assert(more@.take(i as int) =~= more@.take(i - 1).push(more@[i - 1]));
        assert(out@ =~= old(out)@ + more@.take(i as int));
    }
    assert(more@.take(i as int) =~= more@);
}

pub(crate) fn put_u16(out: &mut Vec<u8>, n: u16)
    ensures
        final(out)@ == old(out)@ + bytes::spec_u16_to_le_bytes(n),
{
    let encoded = u16_to_le_bytes(n);
    put_bytes(out, encoded.as_slice());
}

pub(crate) fn put_u32(out: &mut Vec<u8>, n: u32)
    ensures
        final(out)@ == old(out)@ + bytes::spec_u32_to_le_bytes(n),
{
    let encoded = u32_to_le_bytes(n);
    put_bytes(out, encoded.as_slice());
}

pub(crate) fn put_u64(out: &mut Vec<u8>, n: u64)
    ensures
        final(out)@ == old(out)@ + bytes::spec_u64_to_le_bytes(n),
{
    let encoded = u64_to_le_bytes(n);
    put_bytes(out, encoded.as_slice());
}

pub(crate) fn put_u8(out: &mut Vec<u8>, n: u8)
    ensures
        final(out)@ == old(out)@ + seq![n],
{
    out.push(n);
    assert(out@ =~= old(out)@ + seq![n]);
}

pub(crate) fn put_text(out: &mut Vec<u8>, value: &str)
    ensures
        final(out)@ == old(out)@ + text_bytes(value@),
{
    let encoded = value.as_bytes();
    put_u32(out, encoded.len() as u32);
    put_bytes(out, encoded);
    assert(out@ =~= old(out)@ + text_bytes(value@));
}

/// The bytes that open an encoding and say what it encodes.
pub(crate) fn encoding_of(domain: &str) -> (out: Vec<u8>)
    ensures
        out@ == utf8::encode_utf8(domain@),
{
    let mut out: Vec<u8> = Vec::new();
    put_bytes(&mut out, domain.as_bytes());
    assert(out@ =~= utf8::encode_utf8(domain@));
    out
}

/// The canonical bytes of a profile key.
pub open spec fn profile_bytes(key: context::ProfileName) -> Seq<u8> {
    utf8::encode_utf8("azalea-pathfinder/profile-key/v1"@) + text_bytes(key.server)
        + bytes::spec_u32_to_le_bytes(key.protocol) + text_bytes(key.dimension)
        + bytes::spec_u64_to_le_bytes(key.capability_hash) + bytes::spec_u16_to_le_bytes(
        key.latency_bucket_ms,
    ) + text_bytes(key.environment)
}

/// Pieces of equal length can be told apart at the front of equal sequences.
pub(crate) proof fn lemma_same_front(a: Seq<u8>, b: Seq<u8>, rest_a: Seq<u8>, rest_b: Seq<u8>)
    requires
        a + rest_a == b + rest_b,
        a.len() == b.len(),
    ensures
        a == b,
        rest_a == rest_b,
{
    let n = a.len() as int;
    assert((a + rest_a).take(n) =~= a);
    assert((b + rest_b).take(n) =~= b);
    assert((a + rest_a).skip(n) =~= rest_a);
    assert((b + rest_b).skip(n) =~= rest_b);
}

/// The length prefix tells two texts apart, whatever follows them.
pub(crate) proof fn lemma_same_text(a: Seq<char>, b: Seq<char>, rest_a: Seq<u8>, rest_b: Seq<u8>)
    requires
        text_bytes(a) + rest_a == text_bytes(b) + rest_b,
        text::utf8_len(a) <= u32::MAX,
        text::utf8_len(b) <= u32::MAX,
    ensures
        a == b,
        rest_a == rest_b,
{
    bytes::lemma_auto_spec_u32_to_from_le_bytes();
    let (na, nb) = (text::utf8_len(a) as u32, text::utf8_len(b) as u32);
    let (la, lb) = (bytes::spec_u32_to_le_bytes(na), bytes::spec_u32_to_le_bytes(nb));
    let (ua, ub) = (utf8::encode_utf8(a), utf8::encode_utf8(b));
    assert(text_bytes(a) + rest_a =~= la + (ua + rest_a));
    assert(text_bytes(b) + rest_b =~= lb + (ub + rest_b));
    lemma_same_front(la, lb, ua + rest_a, ub + rest_b);
    assert(bytes::spec_u32_from_le_bytes(la) == na);
    assert(bytes::spec_u32_from_le_bytes(lb) == nb);
    lemma_same_front(ua, ub, rest_a, rest_b);
    utf8::encode_utf8_decode_utf8(a);
    utf8::encode_utf8_decode_utf8(b);
}

/// Valid profile keys have distinct encodings, so two profiles share files or
/// hashes only if their digests collide.
pub proof fn distinct_profiles_have_distinct_encodings(
    a: context::ProfileName,
    b: context::ProfileName,
)
    requires
        a.valid(),
        b.valid(),
        profile_bytes(a) == profile_bytes(b),
    ensures
        a == b,
{
    let domain = utf8::encode_utf8("azalea-pathfinder/profile-key/v1"@);
    let (head_a, head_b) = (head_bytes(a), head_bytes(b));
    lemma_profile_parts(a);
    lemma_profile_parts(b);
    lemma_same_front(domain, domain, head_a, head_b);
    lemma_same_heads(a, b);
}

/// What follows the domain in the bytes of a profile key.
spec fn head_bytes(key: context::ProfileName) -> Seq<u8> {
    text_bytes(key.server) + (bytes::spec_u32_to_le_bytes(key.protocol) + (text_bytes(
        key.dimension,
    ) + tail_bytes(key)))
}

proof fn lemma_profile_parts(key: context::ProfileName)
    ensures
        profile_bytes(key) == utf8::encode_utf8("azalea-pathfinder/profile-key/v1"@) + head_bytes(
            key,
        ),
{
    let d = utf8::encode_utf8("azalea-pathfinder/profile-key/v1"@);
    let t = text_bytes(key.server);
    let p = bytes::spec_u32_to_le_bytes(key.protocol);
    let u = text_bytes(key.dimension);
    let c = bytes::spec_u64_to_le_bytes(key.capability_hash);
    let m = bytes::spec_u16_to_le_bytes(key.latency_bucket_ms);
    let e = text_bytes(key.environment);
    let front = d + t + p + u;
    assert(front + c + m + e =~= front + (c + m + e));
    assert(d + t + p + u + (c + m + e) =~= d + t + p + (u + (c + m + e)));
    assert(d + t + p + (u + (c + m + e)) =~= d + t + (p + (u + (c + m + e))));
    assert(d + t + (p + (u + (c + m + e))) =~= d + (t + (p + (u + (c + m + e)))));
}

proof fn lemma_same_heads(a: context::ProfileName, b: context::ProfileName)
    requires
        a.valid(),
        b.valid(),
        head_bytes(a) == head_bytes(b),
    ensures
        a == b,
{
    let rest_a = text_bytes(a.dimension) + tail_bytes(a);
    let rest_b = text_bytes(b.dimension) + tail_bytes(b);
    let (pa, pb) = (
        bytes::spec_u32_to_le_bytes(a.protocol),
        bytes::spec_u32_to_le_bytes(b.protocol),
    );
    lemma_same_text(a.server, b.server, pa + rest_a, pb + rest_b);
    lemma_u32_codes(a.protocol, b.protocol);
    lemma_same_front(pa, pb, rest_a, rest_b);
    lemma_same_text(a.dimension, b.dimension, tail_bytes(a), tail_bytes(b));
    lemma_same_tails(a, b);
}

proof fn lemma_u32_codes(a: u32, b: u32)
    ensures
        bytes::spec_u32_to_le_bytes(a).len() == 4,
        bytes::spec_u32_to_le_bytes(b).len() == 4,
        bytes::spec_u32_to_le_bytes(a) == bytes::spec_u32_to_le_bytes(b) ==> a == b,
{
    bytes::lemma_auto_spec_u32_to_from_le_bytes();
    assert(bytes::spec_u32_to_le_bytes(a).len() == 4);
    assert(bytes::spec_u32_to_le_bytes(b).len() == 4);
    assert(bytes::spec_u32_from_le_bytes(bytes::spec_u32_to_le_bytes(a)) == a);
    assert(bytes::spec_u32_from_le_bytes(bytes::spec_u32_to_le_bytes(b)) == b);
}

proof fn lemma_same_tails(a: context::ProfileName, b: context::ProfileName)
    requires
        a.valid(),
        b.valid(),
        tail_bytes(a) == tail_bytes(b),
    ensures
        a.capability_hash == b.capability_hash,
        a.latency_bucket_ms == b.latency_bucket_ms,
        a.environment == b.environment,
{
    bytes::lemma_auto_spec_u16_to_from_le_bytes();
    bytes::lemma_auto_spec_u64_to_from_le_bytes();
    let (ca, cb) = (
        bytes::spec_u64_to_le_bytes(a.capability_hash),
        bytes::spec_u64_to_le_bytes(b.capability_hash),
    );
    let (ma, mb) = (
        bytes::spec_u16_to_le_bytes(a.latency_bucket_ms),
        bytes::spec_u16_to_le_bytes(b.latency_bucket_ms),
    );
    let none: Seq<u8> = Seq::empty();
    let (ea, eb) = (text_bytes(a.environment) + none, text_bytes(b.environment) + none);
    assert(tail_bytes(a) =~= ca + (ma + ea));
    assert(tail_bytes(b) =~= cb + (mb + eb));
    lemma_same_front(ca, cb, ma + ea, mb + eb);
    lemma_same_front(ma, mb, ea, eb);
    assert(bytes::spec_u64_from_le_bytes(ca) == a.capability_hash);
    assert(bytes::spec_u64_from_le_bytes(cb) == b.capability_hash);
    assert(bytes::spec_u16_from_le_bytes(ma) == a.latency_bucket_ms);
    assert(bytes::spec_u16_from_le_bytes(mb) == b.latency_bucket_ms);
    lemma_same_text(a.environment, b.environment, none, none);
}

/// What follows the dimension in the bytes of a profile key.
spec fn tail_bytes(key: context::ProfileName) -> Seq<u8> {
    bytes::spec_u64_to_le_bytes(key.capability_hash) + bytes::spec_u16_to_le_bytes(
        key.latency_bucket_ms,
    ) + text_bytes(key.environment)
}

impl ProfileKey {
    pub fn encoding(&self) -> (out: Vec<u8>)
        ensures
            out@ == profile_bytes(self@),
    {
        let mut out = encoding_of("azalea-pathfinder/profile-key/v1");
        put_text(&mut out, self.server.as_str());
        put_u32(&mut out, self.protocol);
        put_text(&mut out, self.dimension.as_str());
        put_u64(&mut out, self.capability_hash);
        put_u16(&mut out, self.latency_bucket_ms);
        put_text(&mut out, self.environment.as_str());
        out
    }

    /// The digest that names the profile's files.
    pub fn digest(&self) -> (digest: [u8; 32])
        ensures
            digest@ == blake3_digest(profile_bytes(self@)),
    {
        blake3_hash(self.encoding().as_slice())
    }

    /// Compatibility-sized digest for logs and seeds. File names use the full
    /// 256-bit digest.
    pub fn stable_hash(&self) -> (hash: u64)
        ensures
            hash == short_hash(profile_bytes(self@)),
    {
        hash_bytes(&self.encoding())
    }
}

/// The name of the file a profile with this digest is kept in.
pub fn profile_file_name(digest: &[u8; 32]) -> (name: String)
    ensures
        name@ == "profile-"@ + text::hexadecimal(digest@) + ".json"@,
{
    let mut name = "profile-".to_owned();
    push_hexadecimal(&mut name, digest.as_slice());
    name.append(".json");
    name
}

/// The name of the file one process appends its telemetry to.
pub fn telemetry_file_name(digest: &[u8; 32], process: u32) -> (name: String)
    ensures
        name@ == "telemetry-"@ + text::hexadecimal(digest@) + "-"@ + text::decimal(process as nat)
            + ".jsonl"@,
{
    let mut name = "telemetry-".to_owned();
    push_hexadecimal(&mut name, digest.as_slice());
    name.append("-");
    text::push_decimal(&mut name, process as u64);
    name.append(".jsonl");
    name
}

/// The canonical bytes of movement costs.
pub open spec fn costs_bytes(costs: MovementCosts) -> Seq<u8> {
    utf8::encode_utf8("azalea-pathfinder/movement-costs/v1"@) + bytes::spec_u32_to_le_bytes(
        costs.cardinal_walk,
    ) + bytes::spec_u32_to_le_bytes(costs.diagonal_walk) + bytes::spec_u32_to_le_bytes(costs.step)
        + bytes::spec_u32_to_le_bytes(costs.jump) + bytes::spec_u32_to_le_bytes(costs.fall_base)
        + bytes::spec_u32_to_le_bytes(costs.fall_per_block) + bytes::spec_u32_to_le_bytes(
        costs.parkour_per_block,
    ) + bytes::spec_u32_to_le_bytes(costs.swim) + bytes::spec_u32_to_le_bytes(costs.climb)
        + bytes::spec_u32_to_le_bytes(costs.swim_exit)
}

pub fn costs_encoding(costs: MovementCosts) -> (out: Vec<u8>)
    ensures
        out@ == costs_bytes(costs),
{
    let mut out = encoding_of("azalea-pathfinder/movement-costs/v1");
    put_u32(&mut out, costs.cardinal_walk);
    put_u32(&mut out, costs.diagonal_walk);
    put_u32(&mut out, costs.step);
    put_u32(&mut out, costs.jump);
    put_u32(&mut out, costs.fall_base);
    put_u32(&mut out, costs.fall_per_block);
    put_u32(&mut out, costs.parkour_per_block);
    put_u32(&mut out, costs.swim);
    put_u32(&mut out, costs.climb);
    put_u32(&mut out, costs.swim_exit);
    out
}

pub fn movement_costs_hash(costs: MovementCosts) -> (hash: u64)
    ensures
        hash == short_hash(costs_bytes(costs)),
{
    hash_bytes(&costs_encoding(costs))
}

/// A lava policy as its tag and, where it has one, its clearance.
pub open spec fn lava_bytes(policy: LavaPolicy) -> Seq<u8> {
    match policy {
        LavaPolicy::Forbidden { clearance } => seq![0u8] + bytes::spec_u32_to_le_bytes(
            clearance as u32,
        ),
        LavaPolicy::Penalized => seq![1u8],
    }
}

fn put_lava(out: &mut Vec<u8>, policy: LavaPolicy)
    ensures
        final(out)@ == old(out)@ + lava_bytes(policy),
{
    match policy {
        LavaPolicy::Forbidden { clearance } => {
            put_u8(out, 0);
            put_u32(out, clearance as u32);
        },
        LavaPolicy::Penalized => {
            put_u8(out, 1);
        },
    }
    assert(out@ =~= old(out)@ + lava_bytes(policy));
}

/// The sixty-four bit two's complement form of a signed setting.
pub open spec fn wide(n: int) -> Seq<u8> {
    bytes::spec_u64_to_le_bytes((n as i64) as u64)
}

/// The canonical bytes of planner policy, given the hash of its costs.
pub open spec fn planner_bytes(ctx: &MoveContext, costs_hash: u64) -> Seq<u8> {
    utf8::encode_utf8("azalea-pathfinder/move-context/v1"@) + bytes::spec_u64_to_le_bytes(
        costs_hash,
    ) + wide(ctx.max_fall as int) + wide(ctx.goal_tolerance as int) + bytes::spec_u64_to_le_bytes(
        ctx.max_expansions as u64,
    ) + bytes::spec_u64_to_le_bytes(
        if ctx.time_budget_ms > i64::MAX {
            i64::MAX as u64
        } else {
            ctx.time_budget_ms
        },
    ) + wide(ctx.fall_damage_penalty as int) + wide(ctx.wall_penalty as int) + wide(
        ctx.lava_penalty as int,
    ) + wide(ctx.lava_proximity_radius as int) + wide(ctx.lava_proximity_penalty as int) + wide(
        ctx.water_penalty as int,
    ) + wide(ctx.grazing_step_penalty as int) + lava_bytes(ctx.lava_policy) + seq![
        match ctx.water_policy {
            WaterPolicy::Forbidden => 0u8,
            WaterPolicy::Penalized => 1u8,
        },
    ]
}

fn put_wide(out: &mut Vec<u8>, n: i64)
    ensures
        final(out)@ == old(out)@ + wide(n as int),
{
    put_u64(out, n as u64);
}

pub fn planner_encoding(ctx: &MoveContext, costs_hash: u64) -> (out: Vec<u8>)
    ensures
        out@ == planner_bytes(ctx, costs_hash),
{
    let mut out = encoding_of("azalea-pathfinder/move-context/v1");
    put_u64(&mut out, costs_hash);
    put_wide(&mut out, ctx.max_fall as i64);
    put_wide(&mut out, ctx.goal_tolerance as i64);
    put_u64(&mut out, ctx.max_expansions as u64);
    let budget: u64 = if ctx.time_budget_ms > i64::MAX as u64 {
        i64::MAX as u64
    } else {
        ctx.time_budget_ms
    };
    put_u64(&mut out, budget);
    put_wide(&mut out, ctx.fall_damage_penalty as i64);
    put_wide(&mut out, ctx.wall_penalty as i64);
    put_wide(&mut out, ctx.lava_penalty as i64);
    put_wide(&mut out, ctx.lava_proximity_radius as i64);
    put_wide(&mut out, ctx.lava_proximity_penalty as i64);
    put_wide(&mut out, ctx.water_penalty as i64);
    put_wide(&mut out, ctx.grazing_step_penalty as i64);
    put_lava(&mut out, ctx.lava_policy);
    let water: u8 = match ctx.water_policy {
        WaterPolicy::Forbidden => 0,
        WaterPolicy::Penalized => 1,
    };
    put_u8(&mut out, water);
    out
}

/// Stable hash of planner policy frozen for a leg. Journey-local avoidance
/// entries and the randomized tie-break seed are intentionally excluded; they
/// are route state rather than model semantics.
pub fn move_context_hash(ctx: &MoveContext) -> (hash: u64)
    ensures
        hash == short_hash(planner_bytes(ctx, short_hash(costs_bytes(ctx.costs)))),
{
    hash_bytes(&planner_encoding(ctx, movement_costs_hash(ctx.costs)))
}

/// The planner hash depends on policy alone: two contexts that differ only in
/// their avoid tolls and tie-break seed have the same hash.
pub proof fn route_state_is_not_hashed(a: &MoveContext, b: &MoveContext, costs_hash: u64)
    requires
        *a == (MoveContext { avoid: a.avoid, path_seed: a.path_seed, ..*b }),
    ensures
        planner_bytes(a, costs_hash) == planner_bytes(b, costs_hash),
        a.costs == b.costs,
{
}

/// The double-precision controls, in order.
pub open spec fn distance_bytes(s: FollowerSettings) -> Seq<u8> {
    bytes::spec_u64_to_le_bytes(s.node_radius_xz.0) + bytes::spec_u64_to_le_bytes(
        s.node_y_tolerance.0,
    ) + bytes::spec_u64_to_le_bytes(s.passed_node_radius_xz.0) + bytes::spec_u64_to_le_bytes(
        s.arrival_radius_xz.0,
    ) + bytes::spec_u64_to_le_bytes(s.arrival_y_tolerance.0) + bytes::spec_u64_to_le_bytes(
        s.close_enough_xz.0,
    ) + bytes::spec_u64_to_le_bytes(s.close_enough_y.0) + bytes::spec_u64_to_le_bytes(
        s.line_sample_spacing.0,
    ) + bytes::spec_u64_to_le_bytes(s.body_half_width.0) + bytes::spec_u64_to_le_bytes(
        s.jump_height_threshold.0,
    ) + bytes::spec_u64_to_le_bytes(s.minimum_lookahead.0)
}

/// The single-precision controls, in order.
pub open spec fn angle_bytes(s: FollowerSettings) -> Seq<u8> {
    bytes::spec_u32_to_le_bytes(s.minimum_turn_degrees.0) + bytes::spec_u32_to_le_bytes(
        s.yaw_wander_speed.0,
    ) + bytes::spec_u32_to_le_bytes(s.yaw_wander_degrees.0) + bytes::spec_u32_to_le_bytes(
        s.pitch_wander_speed.0,
    ) + bytes::spec_u32_to_le_bytes(s.pitch_wander_degrees.0) + bytes::spec_u32_to_le_bytes(
        s.turn_ease.0,
    ) + bytes::spec_u32_to_le_bytes(s.pitch_clamp_degrees.0)
}

/// The tick and chance controls, in order.
pub open spec fn tick_bytes(s: FollowerSettings) -> Seq<u8> {
    bytes::spec_u64_to_le_bytes(s.stall_ticks as u64) + bytes::spec_u64_to_le_bytes(
        s.max_follow_ticks as u64,
    ) + bytes::spec_u64_to_le_bytes(s.max_los_skip as u64) + bytes::spec_u64_to_le_bytes(
        s.turn_jitter_degrees,
    ) + bytes::spec_u64_to_le_bytes(s.sprint_break_chance_denominator)
        + bytes::spec_u64_to_le_bytes(s.sprint_break_min_ticks as u64)
        + bytes::spec_u64_to_le_bytes(s.sprint_break_max_ticks as u64)
        + bytes::spec_u64_to_le_bytes(s.escape_hop_first_min_ticks as u64)
        + bytes::spec_u64_to_le_bytes(s.escape_hop_first_max_ticks as u64)
        + bytes::spec_u64_to_le_bytes(s.escape_hop_second_min_ticks as u64)
        + bytes::spec_u64_to_le_bytes(s.escape_hop_second_max_ticks as u64)
}

/// The canonical bytes of follower controls.
pub open spec fn control_bytes(s: FollowerSettings) -> Seq<u8> {
    utf8::encode_utf8("azalea-pathfinder/follower-settings/v1"@) + distance_bytes(s) + angle_bytes(
        s,
    ) + tick_bytes(s) + lava_bytes(s.lava_policy)
}

fn distance_encoding(s: &FollowerSettings) -> (out: Vec<u8>)
    ensures
        out@ == distance_bytes(*s),
{
    let mut out = u64_to_le_bytes(s.node_radius_xz.0);
    put_u64(&mut out, s.node_y_tolerance.0);
    put_u64(&mut out, s.passed_node_radius_xz.0);
    put_u64(&mut out, s.arrival_radius_xz.0);
    put_u64(&mut out, s.arrival_y_tolerance.0);
    put_u64(&mut out, s.close_enough_xz.0);
    put_u64(&mut out, s.close_enough_y.0);
    put_u64(&mut out, s.line_sample_spacing.0);
    put_u64(&mut out, s.body_half_width.0);
    put_u64(&mut out, s.jump_height_threshold.0);
    put_u64(&mut out, s.minimum_lookahead.0);
    out
}

fn angle_encoding(s: &FollowerSettings) -> (out: Vec<u8>)
    ensures
        out@ == angle_bytes(*s),
{
    let mut out = u32_to_le_bytes(s.minimum_turn_degrees.0);
    put_u32(&mut out, s.yaw_wander_speed.0);
    put_u32(&mut out, s.yaw_wander_degrees.0);
    put_u32(&mut out, s.pitch_wander_speed.0);
    put_u32(&mut out, s.pitch_wander_degrees.0);
    put_u32(&mut out, s.turn_ease.0);
    put_u32(&mut out, s.pitch_clamp_degrees.0);
    out
}

fn tick_encoding(s: &FollowerSettings) -> (out: Vec<u8>)
    ensures
        out@ == tick_bytes(*s),
{
    let mut out = u64_to_le_bytes(s.stall_ticks as u64);
    put_u64(&mut out, s.max_follow_ticks as u64);
    put_u64(&mut out, s.max_los_skip as u64);
    put_u64(&mut out, s.turn_jitter_degrees);
    put_u64(&mut out, s.sprint_break_chance_denominator);
    put_u64(&mut out, s.sprint_break_min_ticks as u64);
    put_u64(&mut out, s.sprint_break_max_ticks as u64);
    put_u64(&mut out, s.escape_hop_first_min_ticks as u64);
    put_u64(&mut out, s.escape_hop_first_max_ticks as u64);
    put_u64(&mut out, s.escape_hop_second_min_ticks as u64);
    put_u64(&mut out, s.escape_hop_second_max_ticks as u64);
    out
}

pub fn control_encoding(settings: &FollowerSettings) -> (out: Vec<u8>)
    ensures
        out@ == control_bytes(*settings),
{
    let mut out = encoding_of("azalea-pathfinder/follower-settings/v1");
    put_bytes(&mut out, distance_encoding(settings).as_slice());
    put_bytes(&mut out, angle_encoding(settings).as_slice());
    put_bytes(&mut out, tick_encoding(settings).as_slice());
    put_lava(&mut out, settings.lava_policy);
    out
}

/// Stable hash of the execution controls that determine how planned
/// primitives are actually driven. This is kept separate from planner policy
/// so telemetry gathered with different steering, timeout, or retry behavior
/// cannot be pooled accidentally.
pub fn follower_settings_hash(settings: &FollowerSettings) -> (hash: u64)
    ensures
        hash == short_hash(control_bytes(*settings)),
{
    hash_bytes(&control_encoding(settings))
}

} // verus!
