//! Paired evaluation reports that a candidate must pass to be promoted.
use vstd::prelude::*;

use crate::adaptive::estimate::AdaptiveSettings;

verus! {

#[derive(Clone, Copy, PartialEq, Eq, Structural, Debug)]
pub enum GuardSignal {
    Disconnect,
    DamageSpike,
    SetbackSpike,
    CorrectionSpike,
    Operator,
}

#[derive(Clone, Copy, PartialEq, Eq, Structural, Debug)]
pub struct JourneyMetrics {
    pub journeys: u32,
    pub failed: u32,
    pub p95_ticks: u32,
    pub damage_half_hearts: u32,
    pub setbacks: u32,
    pub corrections: u32,
    pub disconnects: u32,
}

#[derive(Clone, Copy, PartialEq, Eq, Structural, Debug)]
pub struct PromotionReport {
    pub evaluation_id: u64,
    pub candidate_data_revision: u64,
    pub expected_model_revision: u64,
    pub candidate_hash: u64,
    pub known_good: JourneyMetrics,
    pub shadow: JourneyMetrics,
}

#[derive(Clone, Copy, PartialEq, Eq, Structural, Debug)]
pub enum PromotionError {
    ProfileCapacity,
    RevisionOverflow,
    StaleCandidate,
    InsufficientSamples,
    InsufficientEvaluation,
    InvalidReport,
    SafetyRegression,
    PerformanceRegression,
    NoRollback,
}

/// Whether the candidate's rate is above the base rate: the fractions are
/// compared without dividing, so cohorts of different size compare exactly.
pub open spec fn higher_rate(
    candidate_bad: u32,
    candidate_total: u32,
    base_bad: u32,
    base_total: u32,
) -> bool {
    candidate_bad * base_total > base_bad * candidate_total
}

pub fn rate_worse(
    candidate_bad: u32,
    candidate_total: u32,
    base_bad: u32,
    base_total: u32,
) -> (worse: bool)
    ensures
        worse == higher_rate(candidate_bad, candidate_total, base_bad, base_total),
{
    proof {
        assert(0 <= candidate_bad * base_total <= 0xffff_ffff * 0xffff_ffff) by (nonlinear_arith)
            requires
                0 <= candidate_bad <= 0xffff_ffff,
                0 <= base_total <= 0xffff_ffff,
        ;
        assert(0 <= base_bad * candidate_total <= 0xffff_ffff * 0xffff_ffff) by (nonlinear_arith)
            requires
                0 <= base_bad <= 0xffff_ffff,
                0 <= candidate_total <= 0xffff_ffff,
        ;
    }
    candidate_bad as u64 * base_total as u64 > base_bad as u64 * candidate_total as u64
}

/// Whether the shadow cohort is less safe than the known-good one by any
/// measure.
pub open spec fn less_safe(shadow: JourneyMetrics, known_good: JourneyMetrics) -> bool {
    let (n, m) = (shadow.journeys, known_good.journeys);
    ||| higher_rate(shadow.failed, n, known_good.failed, m)
    ||| higher_rate(shadow.damage_half_hearts, n, known_good.damage_half_hearts, m)
    ||| higher_rate(shadow.setbacks, n, known_good.setbacks, m)
    ||| higher_rate(shadow.corrections, n, known_good.corrections, m)
    ||| higher_rate(shadow.disconnects, n, known_good.disconnects, m)
}

/// Why a report does not support a promotion, if it does not.
pub open spec fn report_fault(report: PromotionReport, settings: AdaptiveSettings) -> Option<
    PromotionError,
> {
    let (known_good, shadow) = (report.known_good, report.shadow);
    if known_good.journeys < settings.minimum_evaluation_journeys || shadow.journeys
        < settings.minimum_evaluation_journeys {
        Some(PromotionError::InsufficientEvaluation)
    } else if known_good.failed > known_good.journeys || shadow.failed > shadow.journeys
        || known_good.p95_ticks == 0 || shadow.p95_ticks == 0 {
        Some(PromotionError::InvalidReport)
    } else if less_safe(shadow, known_good) {
        Some(PromotionError::SafetyRegression)
    } else if shadow.p95_ticks > known_good.p95_ticks * (100
        + settings.maximum_p95_regression_percent) / 100 {
        Some(PromotionError::PerformanceRegression)
    } else {
        None
    }
}

impl PromotionReport {
    pub fn validate(&self, settings: &AdaptiveSettings) -> (checked: Result<(), PromotionError>)
        requires
            settings.in_range(),
        ensures
            match report_fault(*self, *settings) {
                None => checked is Ok,
                Some(fault) => checked == Err::<(), PromotionError>(fault),
            },
    {
        let known_good = self.known_good;
        let shadow = self.shadow;
        if known_good.journeys < settings.minimum_evaluation_journeys || shadow.journeys
            < settings.minimum_evaluation_journeys {
            return Err(PromotionError::InsufficientEvaluation);
        }
        if known_good.failed > known_good.journeys || shadow.failed > shadow.journeys
            || known_good.p95_ticks == 0 || shadow.p95_ticks == 0 {
            return Err(PromotionError::InvalidReport);
        }
        if rate_worse(shadow.failed, shadow.journeys, known_good.failed, known_good.journeys)
            || rate_worse(
            shadow.damage_half_hearts,
            shadow.journeys,
            known_good.damage_half_hearts,
            known_good.journeys,
        ) || rate_worse(
            shadow.setbacks,
            shadow.journeys,
            known_good.setbacks,
            known_good.journeys,
        ) || rate_worse(
            shadow.corrections,
            shadow.journeys,
            known_good.corrections,
            known_good.journeys,
        ) || rate_worse(
            shadow.disconnects,
            shadow.journeys,
            known_good.disconnects,
            known_good.journeys,
        ) {
            return Err(PromotionError::SafetyRegression);
        }
        let percent: u64 = 100 + settings.maximum_p95_regression_percent as u64;
        proof {
            let t = known_good.p95_ticks as int;
            let p = percent as int;
            assert(0 <= t * p <= 0xffff_ffff * 110) by (nonlinear_arith)
                requires
                    0 <= t <= 0xffff_ffff,
                    0 <= p <= 110,
            ;
        }
        let allowed: u64 = known_good.p95_ticks as u64 * percent / 100;
        if shadow.p95_ticks as u64 > allowed {
            return Err(PromotionError::PerformanceRegression);
        }
        Ok(())
    }
}

/// A report that passes shows a candidate that is at least as safe as the
/// known-good model by every measure.
pub proof fn passing_reports_show_no_regression(report: PromotionReport, settings: AdaptiveSettings)
    requires
        report_fault(report, settings) is None,
    ensures
        report.shadow.failed * report.known_good.journeys <= report.known_good.failed
            * report.shadow.journeys,
        report.shadow.damage_half_hearts * report.known_good.journeys
            <= report.known_good.damage_half_hearts * report.shadow.journeys,
        report.shadow.setbacks * report.known_good.journeys <= report.known_good.setbacks
            * report.shadow.journeys,
        report.shadow.corrections * report.known_good.journeys <= report.known_good.corrections
            * report.shadow.journeys,
        report.shadow.disconnects * report.known_good.journeys <= report.known_good.disconnects
            * report.shadow.journeys,
{
}

} // verus!
