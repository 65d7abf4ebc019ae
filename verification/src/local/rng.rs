//! The small deterministic generator behind a follower's habits.
use vstd::prelude::*;

use crate::arith;

verus! {

/// A xorshift generator.
#[derive(Clone, Copy, PartialEq, Eq, Structural, Debug)]
pub struct Rng(pub u64);

/// One xorshift step.
pub open spec fn scrambled(state: u64) -> u64 {
    let a = state ^ (state << 13);
    let b = a ^ (a >> 7);
    b ^ (b << 17)
}

/// A live generator never reaches the state it could not leave.
pub proof fn generators_never_die(state: u64)
    requires
        state != 0,
    ensures
        scrambled(state) != 0,
{
    assert({
        let a = state ^ (state << 13);
        let b = a ^ (a >> 7);
        state != 0 ==> b ^ (b << 17) != 0
    }) by (bit_vector);
}

/// No two states lead to the same one: a generator forgets nothing of where it
/// started.
pub proof fn generators_never_merge(a: u64, b: u64)
    requires
        scrambled(a) == scrambled(b),
    ensures
        a == b,
{
    let x = a ^ (a << 13);
    let y = b ^ (b << 13);
    let u = x ^ (x >> 7);
    let v = y ^ (y >> 7);
    assert(u ^ (u << 17) == v ^ (v << 17) ==> u == v) by (bit_vector);
    assert(x ^ (x >> 7) == y ^ (y >> 7) ==> x == y) by (bit_vector);
    assert(a ^ (a << 13) == b ^ (b << 13) ==> a == b) by (bit_vector);
}

impl Rng {
    pub fn seeded(seed: u64) -> (rng: Rng)
        ensures
            rng.0 == if seed ^ 0x9e37_79b9_7f4a_7c15 == 0 {
                1
            } else {
                seed ^ 0x9e37_79b9_7f4a_7c15
            },
            rng.0 != 0,
    {
        let mixed: u64 = seed ^ 0x9e37_79b9_7f4a_7c15;
        Rng(
            if mixed == 0 {
                1
            } else {
                mixed
            },
        )
    }

    pub fn next(&mut self) -> (value: u64)
        ensures
            value == scrambled(old(self).0),
            final(self).0 == value,
    {
        let mut state: u64 = self.0;
        state = state ^ (state << 13);
        state = state ^ (state >> 7);
        state = state ^ (state << 17);
        self.0 = state;
        state
    }
}

/// How many ticks a range spans, both ends counted.
pub open spec fn tick_span(a: u32, b: u32) -> int {
    arith::clamp_u32(arith::abs_int(a - b) + 1) as int
}

/// The tick of a range that a random value picks.
pub open spec fn picked_tick(value: u64, a: u32, b: u32) -> u32 {
    (arith::min_int(a as int, b as int) + value as int % tick_span(a, b)) as u32
}

/// A random number of ticks between two bounds, given in either order.
pub fn random_tick(rng: &mut Rng, min: u32, max: u32) -> (ticks: u32)
    ensures
        final(rng).0 == scrambled(old(rng).0),
        ticks == picked_tick(scrambled(old(rng).0), min, max),
        arith::min_int(min as int, max as int) <= ticks <= arith::max_int(min as int, max as int),
{
    let low: u32 = arith::min_u32(min, max);
    let high: u32 = arith::max_u32(min, max);
    let span: u32 = (high - low).saturating_add(1);
    let value: u64 = rng.next();
    low + (value % span as u64) as u32
}

/// Every tick of a range can be drawn, in whichever order its bounds are given:
/// the tick so far above the lower bound is drawn by that very value.
pub proof fn every_tick_can_be_drawn(min: u32, max: u32, tick: u32, value: u64)
    requires
        min <= tick <= max,
        max - min < u32::MAX,
        value == tick - min,
    ensures
        picked_tick(value, min, max) == tick,
        picked_tick(value, max, min) == tick,
{
    vstd::arithmetic::div_mod::lemma_small_mod(value as nat, tick_span(min, max) as nat);
    vstd::arithmetic::div_mod::lemma_small_mod(value as nat, tick_span(max, min) as nat);
}

} // verus!
