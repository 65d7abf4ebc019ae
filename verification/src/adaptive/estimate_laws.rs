//! What learning does to an estimate, and what an estimate supports.
use vstd::prelude::*;

use crate::adaptive::estimate;
use crate::adaptive::estimate::{AdaptiveSettings, PrimitiveEstimate};
use crate::adaptive::observation::MoveObservation;
use crate::arith;

verus! {

/// Whether `s` measures how long an attempt took: its ticks per predicted tick
/// in millionths, rounded down, and no less than a quarter and no more than
/// four times the prediction.
pub open spec fn measures(observation: MoveObservation, s: int) -> bool {
    let ticks = if observation.ended_tick >= observation.began_tick {
        observation.ended_tick - observation.began_tick
    } else {
        0
    };
    &&& 250_000 <= s <= 4_000_000
    &&& observation.predicted_ticks == 0 ==> s == 4_000_000
    &&& observation.predicted_ticks > 0 && s > 250_000 ==> s * observation.predicted_ticks <= ticks
        * 1_000_000
    &&& observation.predicted_ticks > 0 && s < 4_000_000 ==> ticks * 1_000_000 < (s + 1)
        * observation.predicted_ticks
}

proof fn lemma_quotient(n: int, d: int)
    requires
        n >= 0,
        d > 0,
    ensures
        n / d >= 0,
        (n / d) * d <= n < (n / d + 1) * d,
{
    assert(n / d >= 0 && (n / d) * d <= n < (n / d + 1) * d) by (nonlinear_arith)
        requires
            n >= 0,
            d > 0,
    ;
}

/// A sample measures the time of the attempt it is taken from.
pub proof fn samples_measure_time(observation: MoveObservation)
    ensures
        measures(observation, estimate::sample_of(observation) as int),
{
    let d = observation.predicted_ticks as int;
    if d > 0 {
        let ticks = observation.ticks_taken();
        let n = ticks * 1_000_000;
        let held = arith::clamp_u64(n) as int;
        lemma_quotient(held, d);
        let q = held / d;
        let s = estimate::sample_of(observation) as int;
        if held != n {
            assert(held == 0xffff_ffff_ffff_ffff);
            assert(q >= 4_000_000) by (nonlinear_arith)
                requires
                    held == 0xffff_ffff_ffff_ffff,
                    held < (q + 1) * d,
                    0 < d <= 0xffff_ffff,
            ;
        }
        assert(s <= q ==> s * d <= q * d) by (nonlinear_arith)
            requires
                d > 0,
        ;
        assert(s >= q ==> (s + 1) * d >= (q + 1) * d) by (nonlinear_arith)
            requires
                d > 0,
        ;
    }
}

/// Only one number measures an attempt.
pub proof fn measures_are_unique(observation: MoveObservation, a: int, b: int)
    requires
        measures(observation, a),
        measures(observation, b),
    ensures
        a == b,
{
    let d = observation.predicted_ticks as int;
    if d > 0 {
        assert(a < b ==> (a + 1) * d <= b * d) by (nonlinear_arith)
            requires
                d > 0,
        ;
        assert(b < a ==> (b + 1) * d <= a * d) by (nonlinear_arith)
            requires
                d > 0,
        ;
    }
}

proof fn lemma_sampled(observation: MoveObservation, s: int)
    requires
        measures(observation, s),
    ensures
        estimate::sample_of(observation) == s,
{
    samples_measure_time(observation);
    measures_are_unique(observation, estimate::sample_of(observation) as int, s);
}

/// The first success of a primitive is taken at its word.
pub proof fn first_successes_set_the_ratio(
    before: PrimitiveEstimate,
    observation: MoveObservation,
    arrival_sequence: u64,
    s: int,
)
    requires
        observation.outcome is Success,
        measures(observation, s),
        before.ratio_ppm == 0,
    ensures
        estimate::estimate_after(before, observation, arrival_sequence).ratio_ppm == s,
        estimate::estimate_after(before, observation, arrival_sequence).deviation_ppm
            == before.deviation_ppm,
{
    lemma_sampled(observation, s);
}

/// A later success moves the ratio an eighth of the way to what it measured:
/// never past it, never away from it, and strictly nearer to it wherever the
/// two are eight or more apart.
pub proof fn successes_draw_the_ratio_in(
    before: PrimitiveEstimate,
    observation: MoveObservation,
    arrival_sequence: u64,
    s: int,
)
    requires
        observation.outcome is Success,
        measures(observation, s),
        before.ratio_ppm != 0,
    ensures
        ({
            let old_ratio = before.ratio_ppm as int;
            let ratio = estimate::estimate_after(
                before,
                observation,
                arrival_sequence,
            ).ratio_ppm as int;
            &&& old_ratio <= s ==> old_ratio <= ratio <= s
            &&& old_ratio >= s ==> s <= ratio <= old_ratio
            &&& old_ratio + 8 <= s ==> old_ratio < ratio
            &&& old_ratio > s ==> ratio < old_ratio
            &&& s - old_ratio - 7 <= 8 * (ratio - old_ratio) <= s - old_ratio
        }),
{
    lemma_sampled(observation, s);
}

/// The deviation moves an eighth of the way to how far the success was from
/// the ratio: it grows after a surprise that exceeds it by eight or more, and
/// shrinks while successes are less surprising than it.
pub proof fn surprises_move_the_deviation(
    before: PrimitiveEstimate,
    observation: MoveObservation,
    arrival_sequence: u64,
    s: int,
)
    requires
        observation.outcome is Success,
        measures(observation, s),
        before.ratio_ppm != 0,
    ensures
        ({
            let surprise = if before.ratio_ppm >= s {
                before.ratio_ppm - s
            } else {
                s - before.ratio_ppm
            };
            let was = before.deviation_ppm as int;
            let now = estimate::estimate_after(
                before,
                observation,
                arrival_sequence,
            ).deviation_ppm as int;
            &&& was <= surprise ==> was <= now <= surprise
            &&& was >= surprise ==> surprise <= now <= was
            &&& was + 8 <= surprise ==> was < now
            &&& was > surprise ==> now < was
            &&& surprise - was - 7 <= 8 * (now - was) <= surprise - was
        }),
{
    lemma_sampled(observation, s);
}

/// An estimate after `n` more observations like the same one.
pub open spec fn repeated(
    before: PrimitiveEstimate,
    observation: MoveObservation,
    arrival_sequence: u64,
    n: nat,
) -> PrimitiveEstimate
    decreases n,
{
    if n == 0 {
        before
    } else {
        estimate::estimate_after(
            repeated(before, observation, arrival_sequence, (n - 1) as nat),
            observation,
            arrival_sequence,
        )
    }
}

/// Under a steady time the ratio converges to it: it is never further away
/// than before, and after as many successes as it was millionths away it is
/// within eight of it and stays there.
pub proof fn steady_times_are_learned(
    before: PrimitiveEstimate,
    observation: MoveObservation,
    arrival_sequence: u64,
    s: int,
    n: nat,
)
    requires
        observation.outcome is Success,
        measures(observation, s),
        before.ratio_ppm != 0,
    ensures
        repeated(before, observation, arrival_sequence, n).ratio_ppm != 0,
        arith::abs_int(repeated(before, observation, arrival_sequence, n).ratio_ppm - s)
            <= arith::abs_int(before.ratio_ppm - s),
        arith::abs_int(repeated(before, observation, arrival_sequence, n).ratio_ppm - s) < 8
            || arith::abs_int(repeated(before, observation, arrival_sequence, n).ratio_ppm - s) + n
            <= arith::abs_int(before.ratio_ppm - s),
        n >= arith::abs_int(before.ratio_ppm - s) ==> arith::abs_int(
            repeated(before, observation, arrival_sequence, n).ratio_ppm - s,
        ) < 8,
    decreases n,
{
    if n > 0 {
        let last = (n - 1) as nat;
        steady_times_are_learned(before, observation, arrival_sequence, s, last);
        successes_draw_the_ratio_in(
            repeated(before, observation, arrival_sequence, last),
            observation,
            arrival_sequence,
            s,
        );
    }
}

/// Where the ratio is exactly the steady time it stays, and the deviation
/// falls with every success until it is zero.
pub proof fn steady_times_lose_their_deviation(
    before: PrimitiveEstimate,
    observation: MoveObservation,
    arrival_sequence: u64,
    n: nat,
)
    requires
        observation.outcome is Success,
        before.ratio_ppm != 0,
        measures(observation, before.ratio_ppm as int),
    ensures
        repeated(before, observation, arrival_sequence, n).ratio_ppm == before.ratio_ppm,
        repeated(before, observation, arrival_sequence, n).deviation_ppm <= arith::max_int(
            before.deviation_ppm - n,
            0,
        ),
    decreases n,
{
    if n > 0 {
        let last = (n - 1) as nat;
        steady_times_lose_their_deviation(before, observation, arrival_sequence, last);
        let reached = repeated(before, observation, arrival_sequence, last);
        let s = before.ratio_ppm as int;
        successes_draw_the_ratio_in(reached, observation, arrival_sequence, s);
        surprises_move_the_deviation(reached, observation, arrival_sequence, s);
    }
}

/// Of two successes the one that took longer, against the same prediction,
/// never leaves the lower ratio.
pub proof fn longer_times_never_lower_the_ratio(
    before: PrimitiveEstimate,
    quick: MoveObservation,
    slow: MoveObservation,
    arrival_sequence: u64,
)
    requires
        quick.outcome is Success,
        slow.outcome is Success,
        quick.predicted_ticks == slow.predicted_ticks,
        quick.began_tick == slow.began_tick,
        quick.ended_tick <= slow.ended_tick,
    ensures
        estimate::estimate_after(before, quick, arrival_sequence).ratio_ppm
            <= estimate::estimate_after(before, slow, arrival_sequence).ratio_ppm,
{
    samples_measure_time(quick);
    samples_measure_time(slow);
    let a = estimate::sample_of(quick) as int;
    let b = estimate::sample_of(slow) as int;
    let d = quick.predicted_ticks as int;
    assert(b < a ==> (b + 1) * d <= a * d) by (nonlinear_arith)
        requires
            d >= 0,
    ;
    assert(a <= b);
}

/// Every observation is counted once, under what came of it; only a success
/// touches the ratio and the deviation.
pub proof fn observations_are_counted_once(
    before: PrimitiveEstimate,
    observation: MoveObservation,
    arrival_sequence: u64,
)
    requires
        before.observations < u32::MAX,
        before.successes + before.failures + before.interruptions == before.observations,
    ensures
        ({
            let after = estimate::estimate_after(before, observation, arrival_sequence);
            let success = observation.outcome is Success;
            let interrupted = observation.outcome is Interrupted;
            &&& after.observations == before.observations + 1
            &&& after.successes == before.successes + (if success {
                1int
            } else {
                0
            })
            &&& after.interruptions == before.interruptions + (if interrupted {
                1int
            } else {
                0
            })
            &&& after.failures == before.failures + (if !success && !interrupted {
                1int
            } else {
                0
            })
            &&& !success ==> after.ratio_ppm == before.ratio_ppm && after.deviation_ppm
                == before.deviation_ppm
            &&& after.last_sequence == arrival_sequence
        }),
{
}

proof fn lemma_root_exists(n: int) -> (root: int)
    requires
        n >= 0,
    ensures
        estimate::is_root(root, n),
    decreases n,
{
    if n == 0 {
        assert(0int * 0int <= 0 && 0 < (0int + 1) * (0int + 1)) by (nonlinear_arith);
        0
    } else {
        let below = lemma_root_exists(n - 1);
        if n < (below + 1) * (below + 1) {
            below
        } else {
            assert(n < (below + 1 + 1) * (below + 1 + 1)) by (nonlinear_arith)
                requires
                    n - 1 < (below + 1) * (below + 1),
                    below >= 0,
            ;
            below + 1
        }
    }
}

/// Whether `upper` bounds the failure rate of `failures` in `trials` from
/// above, in millionths: the rate itself and a margin of the root of one and a
/// half over the trials, both rounded down, and never more than nine tenths.
pub open spec fn bounds_failures(failures: u32, trials: u32, upper: int) -> bool {
    exists|rate: int, spread: int, margin: int|
        {
            &&& #[trigger] (rate * trials) <= failures * 1_000_000 < (rate + 1) * trials
            &&& #[trigger] (spread * trials) <= 1_500_000_000_000 < (spread + 1) * trials
            &&& margin >= 0
            &&& #[trigger] (margin * margin) <= spread < (margin + 1) * (margin + 1)
            &&& upper == if rate + margin <= 900_000 {
                rate + margin
            } else {
                900_000
            }
        }
}

/// The bound that proposals go by is the one described.
pub proof fn failure_bounds_are_hoeffding(failures: u32, trials: u32)
    requires
        trials > 0,
    ensures
        bounds_failures(failures, trials, estimate::failure_upper(failures, trials)),
{
    let t = trials as int;
    let n = failures * 1_000_000;
    lemma_quotient(n, t);
    lemma_quotient(1_500_000_000_000, t);
    let rate = n / t;
    let spread = 1_500_000_000_000int / t;
    let margin = estimate::root_of(spread);
    let witness = lemma_root_exists(spread);
    assert(estimate::is_root(margin, spread));
    assert(rate * trials <= failures * 1_000_000 < (rate + 1) * trials);
    assert(spread * trials <= 1_500_000_000_000 < (spread + 1) * trials);
    assert(margin * margin <= spread < (margin + 1) * (margin + 1));
}

/// A proposal takes enough trials, three successes and an acceptable bound on
/// the failures, and nothing else. It is the ratio with its deviation, the
/// deviation counted up to the ratio itself, times the attempts a success
/// takes, moved into the configured range.
pub proof fn proposals_pay_for_time_and_retries(
    before: PrimitiveEstimate,
    settings: AdaptiveSettings,
    upper: int,
)
    requires
        settings.in_range(),
        before.valid(),
        before.successes + before.failures > 0,
        bounds_failures(before.failures, (before.successes + before.failures) as u32, upper),
    ensures
        estimate::proposal(before, settings) is Some <==> {
            &&& before.successes + before.failures >= settings.min_samples
            &&& before.successes >= 3
            &&& upper <= settings.maximum_failure_upper_ppm
        },
        estimate::proposal(before, settings) matches Some(m) ==> {
            let slow = if before.deviation_ppm <= before.ratio_ppm {
                before.ratio_ppm + before.deviation_ppm
            } else {
                2 * before.ratio_ppm
            };
            let kept = 1_000_000 - upper;
            &&& settings.minimum_multiplier_ppm <= m <= settings.maximum_multiplier_ppm
            &&& m > settings.minimum_multiplier_ppm ==> m * kept <= slow * 1_000_000
            &&& m < settings.maximum_multiplier_ppm ==> slow * (1_000_000_000_000 - kept) < (m + 1)
                * 1_000_000 * kept
            &&& m >= before.ratio_ppm || m == settings.maximum_multiplier_ppm
        },
{
    let trials = (before.successes + before.failures) as u32;
    failure_bounds_are_hoeffding(before.failures, trials);
    lemma_bounds_unique(
        before.failures,
        trials,
        upper,
        estimate::failure_upper(before.failures, trials),
    );
    if let Some(m) = estimate::proposal(before, settings) {
        let slow = before.ratio_ppm + arith::min_int(
            before.deviation_ppm as int,
            before.ratio_ppm as int,
        );
        let d = 1_000_000 - upper;
        let retries = 1_000_000_000_000int / d;
        lemma_quotient(1_000_000_000_000, d);
        assert(slow * retries >= 0) by (nonlinear_arith)
            requires
                slow >= 0,
                retries >= 0,
        ;
        lemma_quotient(slow * retries, 1_000_000);
        let q = (slow * retries) / 1_000_000;
        assert(retries >= 1_000_000) by (nonlinear_arith)
            requires
                1_000_000_000_000 < (retries + 1) * d,
                0 < d <= 1_000_000,
        ;
        assert(q >= slow) by (nonlinear_arith)
            requires
                retries >= 1_000_000,
                slow >= 0,
                slow * retries < (q + 1) * 1_000_000,
        ;
        assert(q * d <= slow * 1_000_000) by (nonlinear_arith)
            requires
                q * 1_000_000 <= slow * retries,
                retries * d <= 1_000_000_000_000,
                slow >= 0,
                d > 0,
        ;
        assert(slow * (1_000_000_000_000 - d) < (q + 1) * 1_000_000 * d) by (nonlinear_arith)
            requires
                slow * retries < (q + 1) * 1_000_000,
                1_000_000_000_000 < (retries + 1) * d,
                slow >= 0,
                d > 0,
        ;
        let m = m as int;
        assert(m <= q ==> m * d <= q * d) by (nonlinear_arith)
            requires
                d > 0,
        ;
        assert(m >= q ==> (m + 1) * 1_000_000 * d >= (q + 1) * 1_000_000 * d) by (nonlinear_arith)
            requires
                d > 0,
        ;
    }
}

proof fn lemma_bounds_unique(failures: u32, trials: u32, a: int, b: int)
    requires
        trials > 0,
        bounds_failures(failures, trials, a),
        bounds_failures(failures, trials, b),
    ensures
        a == b,
        a >= 0,
{
    let t = trials as int;
    let (r1, s1, m1) = choose|rate: int, spread: int, margin: int|
        {
            &&& #[trigger] (rate * trials) <= failures * 1_000_000 < (rate + 1) * trials
            &&& #[trigger] (spread * trials) <= 1_500_000_000_000 < (spread + 1) * trials
            &&& margin >= 0
            &&& #[trigger] (margin * margin) <= spread < (margin + 1) * (margin + 1)
            &&& a == if rate + margin <= 900_000 {
                rate + margin
            } else {
                900_000
            }
        };
    let (r2, s2, m2) = choose|rate: int, spread: int, margin: int|
        {
            &&& #[trigger] (rate * trials) <= failures * 1_000_000 < (rate + 1) * trials
            &&& #[trigger] (spread * trials) <= 1_500_000_000_000 < (spread + 1) * trials
            &&& margin >= 0
            &&& #[trigger] (margin * margin) <= spread < (margin + 1) * (margin + 1)
            &&& b == if rate + margin <= 900_000 {
                rate + margin
            } else {
                900_000
            }
        };
    lemma_floor_unique(failures * 1_000_000, t, r1, r2);
    lemma_floor_unique(1_500_000_000_000, t, s1, s2);
    estimate::roots_are_unique(m1, m2, s1);
    assert(r1 >= 0) by (nonlinear_arith)
        requires
            0 <= failures * 1_000_000 < (r1 + 1) * t,
            t > 0,
    ;
}

proof fn lemma_floor_unique(n: int, d: int, a: int, b: int)
    requires
        d > 0,
        a * d <= n < (a + 1) * d,
        b * d <= n < (b + 1) * d,
    ensures
        a == b,
{
    assert(a < b ==> (a + 1) * d <= b * d) by (nonlinear_arith)
        requires
            d > 0,
    ;
    assert(b < a ==> (b + 1) * d <= a * d) by (nonlinear_arith)
        requires
            d > 0,
    ;
}

/// A slower or less steady primitive is never proposed cheaper than a quicker,
/// steadier one with the same record.
pub proof fn slower_primitives_are_never_cheaper(
    quick: PrimitiveEstimate,
    slow: PrimitiveEstimate,
    settings: AdaptiveSettings,
)
    requires
        settings.in_range(),
        quick.valid(),
        slow.valid(),
        quick.successes == slow.successes,
        quick.failures == slow.failures,
        quick.ratio_ppm <= slow.ratio_ppm,
        quick.deviation_ppm <= slow.deviation_ppm,
    ensures
        estimate::proposal(quick, settings) is Some <==> estimate::proposal(slow, settings) is Some,
        estimate::proposal(quick, settings) is Some ==> estimate::proposal(quick, settings)->0
            <= estimate::proposal(slow, settings)->0,
{
    let trials = quick.trial_count();
    if trials >= settings.min_samples && quick.successes >= 3 {
        failure_bounds_are_hoeffding(quick.failures, trials);
        let upper = estimate::failure_upper(quick.failures, trials);
        lemma_bounds_unique(quick.failures, trials, upper, upper);
        let a = quick.ratio_ppm + arith::min_int(
            quick.deviation_ppm as int,
            quick.ratio_ppm as int,
        );
        let b = slow.ratio_ppm + arith::min_int(slow.deviation_ppm as int, slow.ratio_ppm as int);
        let d = 1_000_000 - upper;
        let retries = 1_000_000_000_000int / d;
        lemma_quotient(1_000_000_000_000, d);
        assert(0 <= a * retries <= b * retries) by (nonlinear_arith)
            requires
                0 <= a <= b,
                retries >= 0,
        ;
        assert((a * retries) / 1_000_000 <= (b * retries) / 1_000_000);
    }
}

/// Of two records over as many trials, the one with more failures is never
/// proposed where the other is not, and never cheaper.
pub proof fn failures_never_make_a_primitive_cheaper(
    good: PrimitiveEstimate,
    bad: PrimitiveEstimate,
    settings: AdaptiveSettings,
)
    requires
        settings.in_range(),
        good.valid(),
        bad.valid(),
        good.successes + good.failures == bad.successes + bad.failures,
        good.failures <= bad.failures,
        good.ratio_ppm == bad.ratio_ppm,
        good.deviation_ppm == bad.deviation_ppm,
    ensures
        estimate::proposal(bad, settings) is Some ==> {
            &&& estimate::proposal(good, settings) is Some
            &&& estimate::proposal(good, settings)->0 <= estimate::proposal(bad, settings)->0
        },
{
    let trials = good.trial_count();
    if trials >= settings.min_samples && bad.successes >= 3 {
        let t = trials as int;
        let x = good.failures * 1_000_000;
        let y = bad.failures * 1_000_000;
        lemma_quotient(x, t);
        lemma_quotient(y, t);
        let a = x / t;
        let b = y / t;
        assert(b < a ==> (b + 1) * t <= a * t) by (nonlinear_arith)
            requires
                t > 0,
        ;
        let u = estimate::failure_upper(good.failures, trials);
        let v = estimate::failure_upper(bad.failures, trials);
        assert(u <= v);
        failure_bounds_are_hoeffding(good.failures, trials);
        failure_bounds_are_hoeffding(bad.failures, trials);
        lemma_bounds_unique(good.failures, trials, u, u);
        lemma_bounds_unique(bad.failures, trials, v, v);
        let slow = good.ratio_ppm + arith::min_int(
            good.deviation_ppm as int,
            good.ratio_ppm as int,
        );
        let d = 1_000_000 - u;
        let e = 1_000_000 - v;
        lemma_quotient(1_000_000_000_000, d);
        lemma_quotient(1_000_000_000_000, e);
        let r = 1_000_000_000_000int / d;
        let w = 1_000_000_000_000int / e;
        assert(r <= w) by (nonlinear_arith)
            requires
                r * d <= 1_000_000_000_000 < (w + 1) * e,
                0 < e <= d,
                r >= 0,
                w >= 0,
        ;
        assert(0 <= slow * r <= slow * w) by (nonlinear_arith)
            requires
                0 <= r <= w,
                slow >= 0,
        ;
        assert((slow * r) / 1_000_000 <= (slow * w) / 1_000_000);
    }
}

} // verus!
