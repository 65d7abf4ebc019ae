//! Which columns a leap flies over.
use vstd::prelude::*;

use crate::arith;
use crate::local::rules::parkour;
use crate::local::world;
use crate::pos::BlockPos;

verus! {

/// Whether the straight line from the middle of a block to the middle of the
/// block `(ox, oz)` away crosses the inside of the block `(cx, cz)` away, which
/// is neither of the two.
pub open spec fn crosses(ox: int, oz: int, cx: int, cz: int) -> bool {
    &&& !(cx == 0 && cz == 0)
    &&& !(cx == ox && cz == oz)
    &&& arith::min_int(ox, 0) <= cx <= arith::max_int(ox, 0)
    &&& arith::min_int(oz, 0) <= cz <= arith::max_int(oz, 0)
    &&& 2 * arith::abs_int(ox * cz - oz * cx) < arith::abs_int(ox) + arith::abs_int(oz)
}

/// A product with a small factor, written as a sum.
spec fn times(small: int, k: int) -> int {
    if small == -4 {
        -(4 * k)
    } else if small == -3 {
        -(3 * k)
    } else if small == -2 {
        -(2 * k)
    } else if small == -1 {
        -k
    } else if small == 0 {
        0
    } else if small == 1 {
        k
    } else if small == 2 {
        2 * k
    } else if small == 3 {
        3 * k
    } else {
        4 * k
    }
}

proof fn lemma_times(small: int, k: int)
    requires
        -4 <= small <= 4,
    ensures
        small * k == times(small, k),
        k * small == times(small, k),
{
    assert(small * k == k * small) by (nonlinear_arith);
    assert(small == -4 ==> small * k == -(4 * k)) by (nonlinear_arith);
    assert(small == -3 ==> small * k == -(3 * k)) by (nonlinear_arith);
    assert(small == -2 ==> small * k == -(2 * k)) by (nonlinear_arith);
    assert(small == -1 ==> small * k == -k) by (nonlinear_arith);
    assert(small == 0 ==> small * k == 0) by (nonlinear_arith);
    assert(small == 1 ==> small * k == k) by (nonlinear_arith);
    assert(small == 2 ==> small * k == 2 * k) by (nonlinear_arith);
    assert(small == 3 ==> small * k == 3 * k) by (nonlinear_arith);
    assert(small == 4 ==> small * k == 4 * k) by (nonlinear_arith);
}

/// A rounded quotient lies within half of the exact one.
proof fn lemma_rounded(x: int, d: int)
    requires
        d > 0,
        -4 * d <= x <= 4 * d,
    ensures
        ({
            let r = parkour::rounded(x, d);
            &&& -4 <= r <= 4
            &&& x >= 0 ==> -d <= 2 * x - 2 * times(r, d) < d
            &&& x < 0 ==> -d < 2 * x - 2 * times(r, d) <= d
        }),
{
    let r = parkour::rounded(x, d);
    if x >= 0 {
        let n = 2 * x + d;
        assert((2 * d) * r <= n < (2 * d) * (r + 1) && 0 <= r <= 4) by (nonlinear_arith)
            requires
                r == n / (2 * d),
                d > 0,
                0 <= n <= 9 * d,
        ;
        assert((2 * d) * r == 2 * (r * d)) by (nonlinear_arith);
        assert((2 * d) * (r + 1) == 2 * (r * d) + 2 * d) by (nonlinear_arith);
    } else {
        let n = d - 2 * x;
        let q = -r;
        assert((2 * d) * q <= n < (2 * d) * (q + 1) && 0 <= q <= 4) by (nonlinear_arith)
            requires
                q == n / (2 * d),
                d > 0,
                0 <= n <= 9 * d,
        ;
        assert((2 * d) * q == -2 * (r * d)) by (nonlinear_arith)
            requires
                q == -r,
        ;
        assert((2 * d) * (q + 1) == -2 * (r * d) + 2 * d) by (nonlinear_arith)
            requires
                q == -r,
        ;
    }
    lemma_times(r, d);
}

/// The rounded quotient is the one integer within half of the exact one.
proof fn lemma_rounds_to(x: int, d: int, r: int)
    requires
        d > 0,
        -4 * d <= x <= 4 * d,
        -4 <= r <= 4,
        -d < 2 * x - 2 * times(r, d) < d,
    ensures
        parkour::rounded(x, d) == r,
{
    lemma_rounded(x, d);
    let other = parkour::rounded(x, d);
    lemma_times(r, d);
    lemma_times(other, d);
    assert(other == r) by (nonlinear_arith)
        requires
            -d < 2 * x - 2 * (r * d) < d,
            -d <= 2 * x - 2 * (other * d) <= d,
            d > 0,
    ;
}

/// The least side reached from below.
proof fn lemma_least_side(n: int, side: int, least: int)
    requires
        0 <= side <= least < n,
        n <= least * least,
        (least - 1) * (least - 1) < n,
    ensures
        parkour::least_side(n, side) == least,
    decreases least - side,
{
    if side < least {
        assert(side * side <= (least - 1) * (least - 1)) by (nonlinear_arith)
            requires
                0 <= side <= least - 1,
        ;
        lemma_least_side(n, side + 1, least);
    }
}

/// The samples of every jump.
proof fn lemma_samples(squared: int)
    ensures
        squared == 4 ==> parkour::flight_samples(squared) == 8,
        squared == 5 ==> parkour::flight_samples(squared) == 9,
        squared == 8 ==> parkour::flight_samples(squared) == 12,
        squared == 9 ==> parkour::flight_samples(squared) == 12,
        squared == 10 ==> parkour::flight_samples(squared) == 13,
        squared == 13 ==> parkour::flight_samples(squared) == 15,
        squared == 16 ==> parkour::flight_samples(squared) == 16,
{
    lemma_least_side(64, 1, 8);
    lemma_least_side(80, 1, 9);
    lemma_least_side(128, 1, 12);
    lemma_least_side(144, 1, 12);
    lemma_least_side(160, 1, 13);
    lemma_least_side(208, 1, 15);
    lemma_least_side(256, 1, 16);
}

/// The offsets that can be jumped ahead, with their squared distances.
spec fn shaped(a: int, b: int, squared: int) -> bool {
    ||| squared == 4 && ((a == 2 && b == 0) || (a == 0 && b == 2))
    ||| squared == 5 && ((a == 2 && b == 1) || (a == 1 && b == 2))
    ||| squared == 8 && a == 2 && b == 2
    ||| squared == 9 && ((a == 3 && b == 0) || (a == 0 && b == 3))
    ||| squared == 10 && ((a == 3 && b == 1) || (a == 1 && b == 3))
    ||| squared == 13 && ((a == 3 && b == 2) || (a == 2 && b == 3))
    ||| squared == 16 && ((a == 4 && b == 0) || (a == 0 && b == 4))
}

/// The shapes of the offsets that can be jumped.
proof fn lemma_shapes(ox: int, oz: int)
    requires
        parkour::jumpable(ox, oz),
    ensures
        -4 <= ox <= 4,
        -4 <= oz <= 4,
        times(ox, ox) == ox * ox,
        times(oz, oz) == oz * oz,
        parkour::reach_squared(ox, oz) == times(ox, ox) + times(oz, oz),
        shaped(
            arith::abs_int(ox),
            arith::abs_int(oz),
            parkour::reach_squared(ox, oz),
        ),
{
    assert(-4 <= ox <= 4 && -4 <= oz <= 4) by (nonlinear_arith)
        requires
            ox * ox + oz * oz <= 16,
    ;
    lemma_times(ox, ox);
    lemma_times(oz, oz);
}

/// The line to a mirrored offset crosses the mirrored blocks.
proof fn lemma_mirror_x(ox: int, oz: int, cx: int, cz: int)
    ensures
        crosses(ox, oz, cx, cz) <==> crosses(-ox, oz, -cx, cz),
{
    assert((-ox) * cz - oz * (-cx) == -(ox * cz - oz * cx)) by (nonlinear_arith);
}

proof fn lemma_mirror_z(ox: int, oz: int, cx: int, cz: int)
    ensures
        crosses(ox, oz, cx, cz) <==> crosses(ox, -oz, cx, -cz),
{
    assert(ox * (-cz) - (-oz) * cx == -(ox * cz - oz * cx)) by (nonlinear_arith);
}

proof fn lemma_mirror_rounded(o: int, s: int, d: int)
    requires
        d > 0,
    ensures
        parkour::rounded((-o) * s, d) == -parkour::rounded(o * s, d),
{
    assert((-o) * s == -(o * s)) by (nonlinear_arith);
    if o * s == 0 {
        assert(d / (2 * d) == 0) by (nonlinear_arith)
            requires
                d > 0,
        ;
    }
}

proof fn lemma_mirror_jumpable(ox: int, oz: int)
    ensures
        parkour::reach_squared(-ox, oz) == parkour::reach_squared(ox, oz),
        parkour::reach_squared(ox, -oz) == parkour::reach_squared(ox, oz),
{
    assert((-ox) * (-ox) == ox * ox) by (nonlinear_arith);
    assert((-oz) * (-oz) == oz * oz) by (nonlinear_arith);
}

/// Every sample of a jump lies over the takeoff, over the landing, or over a
/// block that the straight line crosses.
#[verifier::spinoff_prover]
#[verifier::rlimit(60)]
proof fn lemma_sampled_ahead(ox: int, oz: int, samples: int, s: int)
    requires
        ox >= 0,
        oz >= 0,
        parkour::jumpable(ox, oz),
        samples == parkour::flight_samples(parkour::reach_squared(ox, oz)),
        1 <= s < samples,
    ensures
        ({
            let cx = parkour::rounded(ox * s, samples);
            let cz = parkour::rounded(oz * s, samples);
            (cx == 0 && cz == 0) || (cx == ox && cz == oz) || crosses(ox, oz, cx, cz)
        }),
{
    lemma_shapes(ox, oz);
    lemma_samples(parkour::reach_squared(ox, oz));
    lemma_times(ox, s);
    lemma_times(oz, s);
    let cx = parkour::rounded(ox * s, samples);
    let cz = parkour::rounded(oz * s, samples);
    lemma_rounded(ox * s, samples);
    lemma_rounded(oz * s, samples);
    lemma_times(ox, cz);
    lemma_times(oz, cx);
}

/// The sample of a jump nearest to a block `along` it, in products with the
/// jump.
spec fn sample_over(squared: int, along: int) -> int {
    if squared == 4 {
        4
    } else if squared == 5 {
        if along == 2 {
            4
        } else {
            5
        }
    } else if squared == 8 {
        6
    } else if squared == 9 {
        if along == 3 {
            4
        } else {
            8
        }
    } else if squared == 10 {
        if along == 3 {
            4
        } else {
            9
        }
    } else if squared == 13 {
        if along == 3 {
            3
        } else if along == 5 {
            6
        } else if along == 8 {
            9
        } else {
            12
        }
    } else {
        along
    }
}

/// Every block that the straight line crosses lies under a sample.
#[verifier::spinoff_prover]
#[verifier::rlimit(60)]
proof fn lemma_crossed_ahead(ox: int, oz: int, samples: int, cx: int, cz: int) -> (s: int)
    requires
        ox >= 0,
        oz >= 0,
        parkour::jumpable(ox, oz),
        samples == parkour::flight_samples(parkour::reach_squared(ox, oz)),
        crosses(ox, oz, cx, cz),
    ensures
        1 <= s < samples,
        parkour::rounded(ox * s, samples) == cx,
        parkour::rounded(oz * s, samples) == cz,
{
    lemma_shapes(ox, oz);
    let squared = parkour::reach_squared(ox, oz);
    lemma_samples(squared);
    lemma_times(ox, cz);
    lemma_times(oz, cx);
    let along = times(ox, cx) + times(oz, cz);
    let s = sample_over(squared, along);
    lemma_times(ox, s);
    lemma_times(oz, s);
    if squared == 4 {
        assert(along == 2);
    } else if squared == 5 {
        assert(along == 2 || along == 3);
    } else if squared == 8 {
        assert(along == 4);
    } else if squared == 9 {
        assert(along == 3 || along == 6);
    } else if squared == 10 {
        assert(along == 3 || along == 7);
    } else if squared == 13 {
        assert(along == 3 || along == 5 || along == 8 || along == 10);
    } else {
        assert(along == 4 || along == 8 || along == 12);
    }
    assert(samples > 0);
    assert(1 <= s < samples);
    assert(-samples < 2 * times(ox, s) - 2 * times(cx, samples) < samples);
    assert(-samples < 2 * times(oz, s) - 2 * times(cz, samples) < samples);
    lemma_rounds_to(ox * s, samples, cx);
    lemma_rounds_to(oz * s, samples, cz);
    s
}

proof fn lemma_sampled(ox: int, oz: int, samples: int, s: int)
    requires
        parkour::jumpable(ox, oz),
        samples == parkour::flight_samples(parkour::reach_squared(ox, oz)),
        1 <= s < samples,
    ensures
        ({
            let cx = parkour::rounded(ox * s, samples);
            let cz = parkour::rounded(oz * s, samples);
            (cx == 0 && cz == 0) || (cx == ox && cz == oz) || crosses(ox, oz, cx, cz)
        }),
    decreases (if ox < 0 {
        1int
    } else {
        0
    }) + (if oz < 0 {
        1int
    } else {
        0
    }),
{
    lemma_mirror_jumpable(ox, oz);
    let cx = parkour::rounded(ox * s, samples);
    let cz = parkour::rounded(oz * s, samples);
    if ox < 0 {
        lemma_sampled(-ox, oz, samples, s);
        lemma_mirror_rounded(ox, s, samples);
        lemma_mirror_x(ox, oz, cx, cz);
    } else if oz < 0 {
        lemma_sampled(ox, -oz, samples, s);
        lemma_mirror_rounded(oz, s, samples);
        lemma_mirror_z(ox, oz, cx, cz);
    } else {
        lemma_sampled_ahead(ox, oz, samples, s);
    }
}

proof fn lemma_crossed(ox: int, oz: int, samples: int, cx: int, cz: int) -> (s: int)
    requires
        parkour::jumpable(ox, oz),
        samples == parkour::flight_samples(parkour::reach_squared(ox, oz)),
        crosses(ox, oz, cx, cz),
    ensures
        1 <= s < samples,
        parkour::rounded(ox * s, samples) == cx,
        parkour::rounded(oz * s, samples) == cz,
    decreases (if ox < 0 {
        1int
    } else {
        0
    }) + (if oz < 0 {
        1int
    } else {
        0
    }),
{
    lemma_mirror_jumpable(ox, oz);
    if ox < 0 {
        lemma_mirror_x(ox, oz, cx, cz);
        let s = lemma_crossed(-ox, oz, samples, -cx, cz);
        lemma_mirror_rounded(ox, s, samples);
        s
    } else if oz < 0 {
        lemma_mirror_z(ox, oz, cx, cz);
        let s = lemma_crossed(ox, -oz, samples, cx, -cz);
        lemma_mirror_rounded(oz, s, samples);
        s
    } else {
        lemma_crossed_ahead(ox, oz, samples, cx, cz)
    }
}

/// The block `(cx, cz)` away, on the level.
pub open spec fn across(from: BlockPos, cx: int, cz: int) -> BlockPos {
    BlockPos { x: (from.x + cx) as i32, y: from.y, z: (from.z + cz) as i32 }
}

/// A leap has to clear exactly the blocks that the straight line between its
/// ends crosses.
pub proof fn leaps_clear_what_they_fly_over(
    from: BlockPos,
    ox: int,
    oz: int,
    clear: spec_fn(BlockPos) -> bool,
)
    requires
        parkour::jumpable(ox, oz),
        i32::MIN + 4 <= from.x <= i32::MAX - 4,
        i32::MIN + 4 <= from.z <= i32::MAX - 4,
    ensures
        parkour::gap_is(from, ox, oz, clear) <==> forall|cx: int, cz: int|
            crosses(ox, oz, cx, cz) ==> clear(#[trigger] across(from, cx, cz)),
{
    lemma_shapes(ox, oz);
    let samples = parkour::flight_samples(parkour::reach_squared(ox, oz));
    if parkour::gap_is(from, ox, oz, clear) {
        assert forall|cx: int, cz: int| crosses(ox, oz, cx, cz) implies clear(
            #[trigger] across(from, cx, cz),
        ) by {
            let s = lemma_crossed(ox, oz, samples, cx, cz);
            let mid = parkour::flown_over(from, ox, oz, s);
            assert(mid == across(from, cx, cz));
        }
    }
    if forall|cx: int, cz: int|
        crosses(ox, oz, cx, cz) ==> clear(#[trigger] across(from, cx, cz)) {
        assert forall|s: int| 1 <= s < samples implies {
            let mid = #[trigger] parkour::flown_over(from, ox, oz, s);
            mid == from || mid == world::shift(from, ox, 0, oz) || clear(mid)
        } by {
            lemma_sampled(ox, oz, samples, s);
            let cx = parkour::rounded(ox * s, samples);
            let cz = parkour::rounded(oz * s, samples);
            lemma_samples(parkour::reach_squared(ox, oz));
            lemma_times(ox, s);
            lemma_times(oz, s);
            lemma_rounded(ox * s, samples);
            lemma_rounded(oz * s, samples);
            assert(parkour::flown_over(from, ox, oz, s) == across(from, cx, cz));
        }
    }
}

} // verus!
