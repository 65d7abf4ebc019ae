//! Learning settings and the running estimate of one movement context.
use vstd::prelude::*;

use crate::adaptive::context::ObservationOutcome;
use crate::adaptive::model::{AdaptiveMode, MULTIPLIER_ONE};
use crate::adaptive::observation::MoveObservation;
use crate::arith;
use crate::arith::saturating_mul_u64;

verus! {

pub const DEFAULT_MIN_SAMPLES: u32 = 32;

pub const MAX_PROFILE_BUCKETS: usize = 256;

pub const MIN_SAMPLE_MULTIPLIER: u32 = 250_000;

pub const MAX_SAMPLE_MULTIPLIER: u32 = 4_000_000;

/// The most observations one estimate counts.
pub const MAX_OBSERVATIONS: u32 = 0x7fff_ffff;

#[derive(Clone, Copy, PartialEq, Eq, Structural, Debug)]
pub struct AdaptiveSettings {
    pub mode: AdaptiveMode,
    pub min_samples: u32,
    pub max_buckets: usize,
    /// Maximum relative change introduced by one promotion.
    pub max_step_percent: u32,
    pub minimum_multiplier_ppm: u32,
    pub maximum_multiplier_ppm: u32,
    pub maximum_failure_upper_ppm: u32,
    pub minimum_evaluation_journeys: u32,
    pub maximum_p95_regression_percent: u32,
}

/// The settings of a learner that nobody configured: it learns without
/// routing by what it learned.
pub open spec fn default_settings() -> AdaptiveSettings {
    AdaptiveSettings {
        mode: AdaptiveMode::Shadow,
        min_samples: DEFAULT_MIN_SAMPLES,
        max_buckets: MAX_PROFILE_BUCKETS,
        max_step_percent: 10,
        minimum_multiplier_ppm: 500_000,
        maximum_multiplier_ppm: 2_000_000,
        maximum_failure_upper_ppm: 350_000,
        minimum_evaluation_journeys: 20,
        maximum_p95_regression_percent: 2,
    }
}

impl Default for AdaptiveSettings {
    fn default() -> (settings: AdaptiveSettings)
        ensures
            settings == default_settings(),
            settings.in_range(),
    {
        AdaptiveSettings {
            mode: AdaptiveMode::Shadow,
            min_samples: DEFAULT_MIN_SAMPLES,
            max_buckets: MAX_PROFILE_BUCKETS,
            max_step_percent: 10,
            minimum_multiplier_ppm: 500_000,
            maximum_multiplier_ppm: 2_000_000,
            maximum_failure_upper_ppm: 350_000,
            minimum_evaluation_journeys: 20,
            maximum_p95_regression_percent: 2,
        }
    }
}

/// `n` limited to `low..=high`.
pub open spec fn between(n: int, low: int, high: int) -> int {
    if n < low {
        low
    } else if n > high {
        high
    } else {
        n
    }
}

fn clamp_between(n: u32, low: u32, high: u32) -> (r: u32)
    ensures
        r == between(n as int, low as int, high as int),
{
    if n < low {
        low
    } else if n > high {
        high
    } else {
        n
    }
}

impl AdaptiveSettings {
    /// Whether every setting is inside its supported range.
    pub open spec fn in_range(self) -> bool {
        &&& self.min_samples >= 3
        &&& 1 <= self.max_buckets <= MAX_PROFILE_BUCKETS
        &&& 1 <= self.max_step_percent <= 25
        &&& 100_000 <= self.minimum_multiplier_ppm <= MULTIPLIER_ONE
        &&& MULTIPLIER_ONE <= self.maximum_multiplier_ppm <= 4_000_000
        &&& self.maximum_failure_upper_ppm <= 900_000
        &&& self.minimum_evaluation_journeys >= 1
        &&& self.maximum_p95_regression_percent <= 10
    }

    /// The settings with every value moved into its supported range.
    pub open spec fn ranged(self) -> AdaptiveSettings {
        AdaptiveSettings {
            mode: self.mode,
            min_samples: arith::max_int(self.min_samples as int, 3) as u32,
            max_buckets: between(self.max_buckets as int, 1, MAX_PROFILE_BUCKETS as int) as usize,
            max_step_percent: between(self.max_step_percent as int, 1, 25) as u32,
            minimum_multiplier_ppm: between(
                self.minimum_multiplier_ppm as int,
                100_000,
                MULTIPLIER_ONE as int,
            ) as u32,
            maximum_multiplier_ppm: between(
                self.maximum_multiplier_ppm as int,
                MULTIPLIER_ONE as int,
                4_000_000,
            ) as u32,
            maximum_failure_upper_ppm: arith::min_int(
                self.maximum_failure_upper_ppm as int,
                900_000,
            ) as u32,
            minimum_evaluation_journeys: arith::max_int(
                self.minimum_evaluation_journeys as int,
                1,
            ) as u32,
            maximum_p95_regression_percent: arith::min_int(
                self.maximum_p95_regression_percent as int,
                10,
            ) as u32,
        }
    }

    pub fn validated(&self) -> (settings: AdaptiveSettings)
        ensures
            settings == self.ranged(),
            settings.in_range(),
            self.in_range() ==> settings == *self,
    {
        AdaptiveSettings {
            mode: self.mode,
            min_samples: arith::max_u32(self.min_samples, 3),
            max_buckets: if self.max_buckets < 1 {
                1
            } else if self.max_buckets > MAX_PROFILE_BUCKETS {
                MAX_PROFILE_BUCKETS
            } else {
                self.max_buckets
            },
            max_step_percent: clamp_between(self.max_step_percent, 1, 25),
            minimum_multiplier_ppm: clamp_between(
                self.minimum_multiplier_ppm,
                100_000,
                MULTIPLIER_ONE,
            ),
            maximum_multiplier_ppm: clamp_between(
                self.maximum_multiplier_ppm,
                MULTIPLIER_ONE,
                4_000_000,
            ),
            maximum_failure_upper_ppm: arith::min_u32(self.maximum_failure_upper_ppm, 900_000),
            minimum_evaluation_journeys: arith::max_u32(self.minimum_evaluation_journeys, 1),
            maximum_p95_regression_percent: arith::min_u32(
                self.maximum_p95_regression_percent,
                10,
            ),
        }
    }
}

/// Whether `root` is the square root of `n` rounded down.
pub open spec fn is_root(root: int, n: int) -> bool {
    root >= 0 && root * root <= n && n < (root + 1) * (root + 1)
}

/// The square root of `n` rounded down.
pub open spec fn root_of(n: int) -> int {
    choose|root: int| is_root(root, n)
}

/// There is only one rounded square root.
pub proof fn roots_are_unique(a: int, b: int, n: int)
    requires
        is_root(a, n),
        is_root(b, n),
    ensures
        a == b,
{
    if a < b {
        assert((a + 1) * (a + 1) <= b * b) by (nonlinear_arith)
            requires
                0 <= a < b,
        ;
    } else if b < a {
        assert((b + 1) * (b + 1) <= a * a) by (nonlinear_arith)
            requires
                0 <= b < a,
        ;
    }
}

/// One step of Newton's method from `x` never lands below the rounded root.
proof fn lemma_newton_step(n: int, x: int)
    requires
        n >= 1,
        x >= 1,
    ensures
        n < ((x + n / x) / 2 + 1) * ((x + n / x) / 2 + 1),
{
    let q = n / x;
    let y = (x + q) / 2;
    assert(n == x * q + n % x && 0 <= n % x < x) by (nonlinear_arith)
        requires
            n >= 1,
            x >= 1,
            q == n / x,
    ;
    assert(n < x * (q + 1)) by (nonlinear_arith)
        requires
            n == x * q + n % x,
            n % x < x,
    ;
    // x * (q + 1) <= ((x + q + 1) / 2)^2 in the reals, and y + 1 > (x + q) / 2.
    assert(2 * (y + 1) >= x + q + 1);
    assert(4 * (x * (q + 1)) <= (x + q + 1) * (x + q + 1)) by (nonlinear_arith);
    assert((x + q + 1) * (x + q + 1) <= (2 * (y + 1)) * (2 * (y + 1))) by (nonlinear_arith)
        requires
            0 <= x + q + 1 <= 2 * (y + 1),
    ;
    assert((2 * (y + 1)) * (2 * (y + 1)) == 4 * ((y + 1) * (y + 1))) by (nonlinear_arith);
}

/// The square root of a number, rounded down.
pub fn integer_sqrt(value: u64) -> (root: u64)
    ensures
        is_root(root as int, value as int),
        root == root_of(value as int),
{
    if value < 2 {
        proof {
            assert(value == 0 || value == 1);
            assert(is_root(value as int, value as int));
            roots_are_unique(value as int, root_of(value as int), value as int);
        }
        return value;
    }
    let mut x: u64 = value;
    let mut y: u64 = value / 2 + value % 2;
    proof {
        let n = value as int;
        assert(n < (n + 1) * (n + 1)) by (nonlinear_arith)
            requires
                n >= 2,
        ;
        let h = y as int;
        assert(2 * h >= n);
        assert(n < (h + 1) * (h + 1)) by (nonlinear_arith)
            requires
                2 * h >= n,
                n >= 2,
        ;
    }
    while y < x
        invariant
            value >= 2,
            1 <= y,
            1 <= x <= value,
            2 * y <= value + 1,
            value < (y + 1) * (y + 1),
            value < (x + 1) * (x + 1),
            y >= x ==> x * x <= value,
        decreases x,
    {
        x = y;
        let quotient: u64 = value / x;
        proof {
            lemma_newton_step(value as int, x as int);
            assert(x + quotient <= value + 1) by (nonlinear_arith)
                requires
                    1 <= x <= value,
                    quotient == value / x,
                    value >= 2,
            ;
        }
        proof {
            if x == 1 {
                assert((x + 1) * (x + 1) == 4) by (nonlinear_arith)
                    requires
                        x == 1,
                ;
            } else {
                assert(2 * quotient <= value) by (nonlinear_arith)
                    requires
                        x >= 2,
                        quotient == value / x,
                ;
            }
        }
        y = (x + quotient) / 2;
        proof {
            if y >= x {
                assert(x * x <= value) by (nonlinear_arith)
                    requires
                        quotient >= x,
                        quotient == value / x,
                        x >= 1,
                ;
            }
            assert(y >= 1);
        }
    }
    proof {
        assert(is_root(x as int, value as int));
        roots_are_unique(x as int, root_of(value as int), value as int);
    }
    x
}

/// What was seen of one movement context so far.
#[derive(Clone, Copy, PartialEq, Eq, Structural, Debug)]
pub struct PrimitiveEstimate {
    pub observations: u32,
    pub successes: u32,
    pub failures: u32,
    pub interruptions: u32,
    /// EWMA of `actual_ticks / predicted_ticks`, in millionths.
    pub ratio_ppm: u32,
    pub deviation_ppm: u32,
    pub last_sequence: u64,
}

/// An estimate that nothing was observed for.
pub open spec fn fresh_estimate() -> PrimitiveEstimate {
    PrimitiveEstimate {
        observations: 0,
        successes: 0,
        failures: 0,
        interruptions: 0,
        ratio_ppm: 0,
        deviation_ppm: 0,
        last_sequence: 0,
    }
}

impl Default for PrimitiveEstimate {
    fn default() -> (estimate: PrimitiveEstimate)
        ensures
            estimate == fresh_estimate(),
    {
        PrimitiveEstimate {
            observations: 0,
            successes: 0,
            failures: 0,
            interruptions: 0,
            ratio_ppm: 0,
            deviation_ppm: 0,
            last_sequence: 0,
        }
    }
}

/// The time ratio of one success in millionths, limited to the sampled range.
pub open spec fn sample_of(observation: MoveObservation) -> u32 {
    if observation.predicted_ticks == 0 {
        MAX_SAMPLE_MULTIPLIER
    } else {
        between(
            arith::clamp_u64(observation.ticks_taken() * MULTIPLIER_ONE) as int
                / observation.predicted_ticks as int,
            MIN_SAMPLE_MULTIPLIER as int,
            MAX_SAMPLE_MULTIPLIER as int,
        ) as u32
    }
}

/// One eighth of the way from `old` to `new`, rounded down.
pub open spec fn smoothed(old: u32, new: int) -> u32 {
    ((old * 7 + new) / 8) as u32
}

/// An estimate after one more observation.
pub open spec fn estimate_after(
    estimate: PrimitiveEstimate,
    observation: MoveObservation,
    arrival_sequence: u64,
) -> PrimitiveEstimate {
    let counted = PrimitiveEstimate {
        observations: arith::clamp_u32(estimate.observations + 1),
        last_sequence: arrival_sequence,
        ..estimate
    };
    match observation.outcome {
        ObservationOutcome::Success => {
            let sample = sample_of(observation);
            let first = estimate.ratio_ppm == 0;
            PrimitiveEstimate {
                successes: arith::clamp_u32(estimate.successes + 1),
                ratio_ppm: if first {
                    sample
                } else {
                    smoothed(estimate.ratio_ppm, sample as int)
                },
                deviation_ppm: if first {
                    estimate.deviation_ppm
                } else {
                    smoothed(
                        estimate.deviation_ppm,
                        arith::abs_int(estimate.ratio_ppm - sample),
                    )
                },
                ..counted
            }
        },
        ObservationOutcome::Interrupted(_) => PrimitiveEstimate {
            interruptions: arith::clamp_u32(estimate.interruptions + 1),
            ..counted
        },
        _ => PrimitiveEstimate { failures: arith::clamp_u32(estimate.failures + 1), ..counted },
    }
}

/// The upper confidence bound on the failure rate in millionths: the observed
/// rate plus a one-sided Hoeffding margin of `sqrt(1.5 / trials)`.
pub open spec fn failure_upper(failures: u32, trials: u32) -> int {
    arith::min_int(
        (failures * MULTIPLIER_ONE) / trials as int + root_of(1_500_000_000_000int / trials as int),
        900_000,
    )
}

/// The cost multiplier an estimate supports, once it has enough samples and
/// its failure bound is acceptable: the smoothed time ratio with its
/// deviation, times the expected retries.
pub open spec fn proposal(estimate: PrimitiveEstimate, settings: AdaptiveSettings) -> Option<u32> {
    let trials = estimate.trial_count();
    if trials < settings.min_samples || estimate.successes < 3 || estimate.ratio_ppm == 0 {
        None
    } else {
        let upper = failure_upper(estimate.failures, trials);
        if upper > settings.maximum_failure_upper_ppm {
            None
        } else {
            let slow = arith::clamp_u32(
                estimate.ratio_ppm + arith::min_int(
                    estimate.deviation_ppm as int,
                    estimate.ratio_ppm as int,
                ),
            );
            let retries = 1_000_000_000_000int / (MULTIPLIER_ONE - upper);
            Some(
                between(
                    (slow * retries) / (MULTIPLIER_ONE as int),
                    settings.minimum_multiplier_ppm as int,
                    settings.maximum_multiplier_ppm as int,
                ) as u32,
            )
        }
    }
}

impl PrimitiveEstimate {
    /// Successes and failures together.
    pub open spec fn trial_count(self) -> u32 {
        arith::clamp_u32(self.successes + self.failures)
    }

    pub open spec fn valid(self) -> bool {
        &&& self.successes + self.failures + self.interruptions == self.observations
        &&& 0 < self.observations <= MAX_OBSERVATIONS
        &&& self.ratio_ppm <= MAX_SAMPLE_MULTIPLIER
        &&& self.deviation_ppm <= MAX_SAMPLE_MULTIPLIER
        &&& (self.successes == 0) == (self.ratio_ppm == 0)
    }

    /// Whether one more observation can be counted.
    pub open spec fn has_room(self) -> bool {
        self.observations < MAX_OBSERVATIONS
    }

    pub fn trials(&self) -> (n: u32)
        ensures
            n == self.trial_count(),
    {
        self.successes.saturating_add(self.failures)
    }

    pub fn observe(&mut self, observation: &MoveObservation, arrival_sequence: u64)
        ensures
            *final(self) == estimate_after(*old(self), *observation, arrival_sequence),
    {
        self.observations = self.observations.saturating_add(1);
        self.last_sequence = arrival_sequence;
        match observation.outcome {
            ObservationOutcome::Success => {
                self.successes = self.successes.saturating_add(1);
                let sample: u32 = success_sample(observation);
                if self.ratio_ppm == 0 {
                    self.ratio_ppm = sample;
                } else {
                    let old_ratio: u32 = self.ratio_ppm;
                    self.ratio_ppm = ((old_ratio as u64 * 7 + sample as u64) / 8) as u32;
                    let residual: u32 = if old_ratio >= sample {
                        old_ratio - sample
                    } else {
                        sample - old_ratio
                    };
                    self.deviation_ppm =
                    ((self.deviation_ppm as u64 * 7 + residual as u64) / 8) as u32;
                }
            },
            ObservationOutcome::Interrupted(_) => {
                self.interruptions = self.interruptions.saturating_add(1);
            },
            _ => {
                self.failures = self.failures.saturating_add(1);
            },
        }
    }

    pub fn proposed_multiplier(&self, settings: &AdaptiveSettings) -> (multiplier: Option<u32>)
        requires
            settings.in_range(),
        ensures
            multiplier == proposal(*self, *settings),
            multiplier matches Some(m) ==> settings.minimum_multiplier_ppm <= m
                <= settings.maximum_multiplier_ppm,
    {
        let trials: u32 = self.trials();
        if trials < settings.min_samples || self.successes < 3 || self.ratio_ppm == 0 {
            return None;
        }
        let empirical: u64 = self.failures as u64 * MULTIPLIER_ONE as u64 / trials as u64;
        let spread: u64 = 1_500_000_000_000u64 / trials as u64;
        let confidence: u64 = integer_sqrt(spread);
        proof {
            let c = confidence as int;
            assert(c <= 1_500_000_000_000) by (nonlinear_arith)
                requires
                    c >= 0,
                    c * c <= 1_500_000_000_000,
            ;
            let f = self.failures as int;
            let t = trials as int;
            assert(0 <= (f * 1_000_000) / t <= f * 1_000_000) by (nonlinear_arith)
                requires
                    f >= 0,
                    t >= 1,
            ;
        }
        let bound: u64 = empirical + confidence;
        let upper: u32 = if bound > 900_000 {
            900_000
        } else {
            bound as u32
        };
        if upper > settings.maximum_failure_upper_ppm {
            return None;
        }
        let deviation: u32 = arith::min_u32(self.deviation_ppm, self.ratio_ppm);
        let slow: u32 = self.ratio_ppm.saturating_add(deviation);
        let retries: u64 = 1_000_000_000_000u64 / (MULTIPLIER_ONE - upper) as u64;
        proof {
            let d = (MULTIPLIER_ONE - upper) as int;
            assert(0 <= 1_000_000_000_000int / d <= 10_000_000) by (nonlinear_arith)
                requires
                    d >= 100_000,
            ;
            let s = slow as int;
            let r = retries as int;
            assert(0 <= s * r <= 0xffff_ffff * 10_000_000) by (nonlinear_arith)
                requires
                    0 <= s <= 0xffff_ffff,
                    0 <= r <= 10_000_000,
            ;
        }
        let multiplier: u64 = slow as u64 * retries / MULTIPLIER_ONE as u64;
        let low: u64 = settings.minimum_multiplier_ppm as u64;
        let high: u64 = settings.maximum_multiplier_ppm as u64;
        Some(
            if multiplier < low {
                settings.minimum_multiplier_ppm
            } else if multiplier > high {
                settings.maximum_multiplier_ppm
            } else {
                multiplier as u32
            },
        )
    }

    pub fn validate(&self) -> (r: bool)
        ensures
            r == self.valid(),
    {
        self.successes as u64 + self.failures as u64 + self.interruptions as u64
            == self.observations as u64 && self.observations > 0 && self.observations
            <= MAX_OBSERVATIONS && self.ratio_ppm <= MAX_SAMPLE_MULTIPLIER && self.deviation_ppm
            <= MAX_SAMPLE_MULTIPLIER && (self.successes == 0) == (self.ratio_ppm == 0)
    }

    pub fn can_observe(&self) -> (r: bool)
        ensures
            r == self.has_room(),
    {
        self.observations < MAX_OBSERVATIONS
    }
}

fn success_sample(observation: &MoveObservation) -> (sample: u32)
    ensures
        sample == sample_of(*observation),
{
    if observation.predicted_ticks == 0 {
        return MAX_SAMPLE_MULTIPLIER;
    }
    let scaled: u64 = saturating_mul_u64(observation.actual_ticks(), MULTIPLIER_ONE as u64);
    let raw: u64 = scaled / observation.predicted_ticks as u64;
    if raw < MIN_SAMPLE_MULTIPLIER as u64 {
        MIN_SAMPLE_MULTIPLIER
    } else if raw > MAX_SAMPLE_MULTIPLIER as u64 {
        MAX_SAMPLE_MULTIPLIER
    } else {
        raw as u32
    }
}

/// Learning keeps an estimate valid while it has room.
pub proof fn learning_keeps_estimates_valid(
    estimate: PrimitiveEstimate,
    observation: MoveObservation,
    arrival_sequence: u64,
)
    requires
        estimate.valid() || estimate == fresh_estimate(),
        estimate.has_room(),
    ensures
        estimate_after(estimate, observation, arrival_sequence).valid(),
        estimate_after(estimate, observation, arrival_sequence).last_sequence == arrival_sequence,
{
}

/// An interruption says nothing about a primitive: it changes neither its
/// successes, its failures nor its time ratio.
pub proof fn interruptions_teach_nothing(
    estimate: PrimitiveEstimate,
    observation: MoveObservation,
    arrival_sequence: u64,
    settings: AdaptiveSettings,
)
    requires
        observation.outcome is Interrupted,
    ensures
        estimate_after(estimate, observation, arrival_sequence).trial_count()
            == estimate.trial_count(),
        proposal(estimate_after(estimate, observation, arrival_sequence), settings) == proposal(
            estimate,
            settings,
        ),
{
}

} // verus!
