//! Saturating integer arithmetic shared by the planner.
use vstd::prelude::*;

verus! {

/// The value of `n` limited to the range of `i32`.
pub open spec fn clamp_i32(n: int) -> i32 {
    if n < i32::MIN {
        i32::MIN
    } else if n > i32::MAX {
        i32::MAX
    } else {
        n as i32
    }
}

/// The value of `n` limited to the range of `u32`.
pub open spec fn clamp_u32(n: int) -> u32 {
    if n < 0 {
        0
    } else if n > u32::MAX {
        u32::MAX
    } else {
        n as u32
    }
}

/// The value of `n` limited to the range of `u64`.
pub open spec fn clamp_u64(n: int) -> u64 {
    if n < 0 {
        0
    } else if n > u64::MAX {
        u64::MAX
    } else {
        n as u64
    }
}

/// The value of `n` limited to the range of `u128`.
pub open spec fn clamp_u128(n: int) -> u128 {
    if n < 0 {
        0
    } else if n > u128::MAX {
        u128::MAX
    } else {
        n as u128
    }
}

pub open spec fn abs_int(n: int) -> int {
    if n < 0 {
        -n
    } else {
        n
    }
}

pub open spec fn min_int(a: int, b: int) -> int {
    if a <= b {
        a
    } else {
        b
    }
}

pub open spec fn max_int(a: int, b: int) -> int {
    if a >= b {
        a
    } else {
        b
    }
}

/// Signed addition that stops at the ends of the range.
pub fn saturating_add_i32(a: i32, b: i32) -> (sum: i32)
    ensures
        sum == clamp_i32(a + b),
{
    let wide: i64 = a as i64 + b as i64;
    if wide < i32::MIN as i64 {
        i32::MIN
    } else if wide > i32::MAX as i64 {
        i32::MAX
    } else {
        wide as i32
    }
}

/// Signed subtraction that stops at the ends of the range.
pub fn saturating_sub_i32(a: i32, b: i32) -> (difference: i32)
    ensures
        difference == clamp_i32(a - b),
{
    let wide: i64 = a as i64 - b as i64;
    if wide < i32::MIN as i64 {
        i32::MIN
    } else if wide > i32::MAX as i64 {
        i32::MAX
    } else {
        wide as i32
    }
}

/// Unsigned multiplication that stops at the end of the range.
pub fn saturating_mul_u32(a: u32, b: u32) -> (product: u32)
    ensures
        product == clamp_u32(a * b),
{
    proof {
        assert(0 <= a * b <= 0xffff_ffff * 0xffff_ffff) by (nonlinear_arith)
            requires
                0 <= a <= 0xffff_ffff,
                0 <= b <= 0xffff_ffff,
        ;
    }
    let wide: u64 = a as u64 * b as u64;
    if wide > u32::MAX as u64 {
        u32::MAX
    } else {
        wide as u32
    }
}

/// Unsigned multiplication that stops at the end of the range.
pub fn saturating_mul_u64(a: u64, b: u64) -> (product: u64)
    ensures
        product == clamp_u64(a * b),
{
    proof {
        assert(0 <= a * b <= 0xffff_ffff_ffff_ffff * 0xffff_ffff_ffff_ffff) by (nonlinear_arith)
            requires
                0 <= a <= 0xffff_ffff_ffff_ffff,
                0 <= b <= 0xffff_ffff_ffff_ffff,
        ;
    }
    let wide: u128 = a as u128 * b as u128;
    if wide > u64::MAX as u128 {
        u64::MAX
    } else {
        wide as u64
    }
}

/// The distance between two coordinates, which always fits in `u32`.
pub fn abs_diff_i32(a: i32, b: i32) -> (distance: u32)
    ensures
        distance == abs_int(a - b),
{
    let wide: i64 = a as i64 - b as i64;
    if wide < 0 {
        (-wide) as u32
    } else {
        wide as u32
    }
}

pub fn min_u32(a: u32, b: u32) -> (m: u32)
    ensures
        m == min_int(a as int, b as int),
{
    if a <= b {
        a
    } else {
        b
    }
}

pub fn max_u32(a: u32, b: u32) -> (m: u32)
    ensures
        m == max_int(a as int, b as int),
{
    if a >= b {
        a
    } else {
        b
    }
}

} // verus!
