//! What learned prices do to a cost, and what a profile keeps of what it sees.
use vstd::prelude::*;

use crate::adaptive::context;
use crate::adaptive::estimate;
use crate::adaptive::estimate::AdaptiveSettings;
use crate::adaptive::features;
use crate::adaptive::features::{CostComponents, MoveFeatures, PrimitiveId};
use crate::adaptive::model;
use crate::adaptive::model::CostModelSnapshot;
use crate::adaptive::observation::MoveObservation;
use crate::adaptive::profile;
use crate::adaptive::profile::ProfileState;
use crate::adaptive::profile_laws;
use crate::adaptive::promotion;
use crate::adaptive::promotion::{PromotionError, PromotionReport};
use crate::arith;
use crate::local::moves::MovementCosts;
use crate::types::Cost;

verus! {

/// A scaled cost is the cost times the multiplier in millionths, rounded up: a
/// multiplier of one million changes nothing, and a cost becomes zero only where
/// it or its multiplier is.
pub proof fn scaling_rounds_up(cost: Cost, multiplier: u32)
    ensures
        ({
            let price = model::scaled(cost, multiplier) as int;
            let exact = cost * multiplier;
            &&& price < u32::MAX ==> exact <= price * 1_000_000 < exact + 1_000_000
            &&& price == u32::MAX ==> exact > (price - 1) * 1_000_000
            &&& price == 0 <==> cost == 0 || multiplier == 0
            &&& multiplier == 1_000_000 ==> price == cost
        }),
{
    let exact = cost * multiplier;
    assert(exact >= 0) by (nonlinear_arith)
        requires
            exact == cost * multiplier,
    ;
    assert(exact == 0 <==> cost == 0 || multiplier == 0) by (nonlinear_arith)
        requires
            exact == cost * multiplier,
    ;
    assert(multiplier == 1_000_000 ==> exact == cost * 1_000_000) by (nonlinear_arith)
        requires
            exact == cost * multiplier,
    ;
}

/// A higher cost or a higher multiplier never scales to less.
pub proof fn scaling_keeps_the_order(cost: Cost, more: Cost, multiplier: u32, higher: u32)
    requires
        cost <= more,
        multiplier <= higher,
    ensures
        model::scaled(cost, multiplier) <= model::scaled(more, higher),
{
    assert(0 <= cost * multiplier <= more * higher) by (nonlinear_arith)
        requires
            0 <= cost <= more,
            0 <= multiplier <= higher,
    ;
}

/// An enabled model scales the time and the reliability of a move by the
/// multiplier of its exact context where it has one, otherwise by that of its
/// primitive, and leaves a move alone that it knows neither of. Any other model
/// leaves every move alone.
pub proof fn models_prefer_the_exact_context(
    snapshot: CostModelSnapshot,
    primitive: PrimitiveId,
    context: MoveFeatures,
    baseline: CostComponents,
)
    ensures
        ({
            let known = snapshot.active_model();
            let exact = features::exact_key(primitive, context) as u128;
            let shared = primitive.0 as u128;
            let priced = snapshot.adapted(primitive, context, baseline);
            let enabled = snapshot.mode is Enabled;
            &&& enabled && known.contains_key(exact) ==> priced.time == model::scaled(
                baseline.time,
                known[exact],
            ) && priced.reliability == model::scaled(baseline.reliability, known[exact])
            &&& enabled && !known.contains_key(exact) && known.contains_key(shared) ==> priced.time
                == model::scaled(baseline.time, known[shared]) && priced.reliability
                == model::scaled(baseline.reliability, known[shared])
            &&& !enabled || (!known.contains_key(exact) && !known.contains_key(shared)) ==> priced
                == baseline
            &&& priced.safety == baseline.safety && priced.damage == baseline.damage
            &&& priced.desync == baseline.desync && priced.resource == baseline.resource
        }),
{
}

/// The parts of a cost add up to it.
pub proof fn parts_add_up(parts: CostComponents)
    ensures
        parts.sum() == arith::min_int(
            parts.time + parts.reliability + parts.safety + parts.damage + parts.desync
                + parts.resource,
            u32::MAX as int,
        ),
{
}

/// Whether a cohort of journeys saw something more often than another.
pub open spec fn more_often(count: u32, journeys: u32, other: u32, others: u32) -> bool {
    count * others > other * journeys
}

/// A report supports a promotion exactly where both cohorts are large enough
/// and make sense, the candidate fails, hurts, sets back, corrects and
/// disconnects no more often than the known-good model, and its slow journeys
/// are at most the configured share slower.
pub proof fn reports_support_only_improvements(report: PromotionReport, settings: AdaptiveSettings)
    ensures
        ({
            let good = report.known_good;
            let new = report.shadow;
            let enough = good.journeys >= settings.minimum_evaluation_journeys && new.journeys
                >= settings.minimum_evaluation_journeys;
            let sound = good.failed <= good.journeys && new.failed <= new.journeys
                && good.p95_ticks > 0 && new.p95_ticks > 0;
            let riskier = more_often(new.failed, new.journeys, good.failed, good.journeys)
                || more_often(
                new.damage_half_hearts,
                new.journeys,
                good.damage_half_hearts,
                good.journeys,
            ) || more_often(new.setbacks, new.journeys, good.setbacks, good.journeys) || more_often(
                new.corrections,
                new.journeys,
                good.corrections,
                good.journeys,
            ) || more_often(new.disconnects, new.journeys, good.disconnects, good.journeys);
            let slower = 100 * new.p95_ticks > good.p95_ticks * (100
                + settings.maximum_p95_regression_percent);
            let fault = promotion::report_fault(report, settings);
            &&& fault is None <==> enough && sound && !riskier && !slower
            &&& !enough ==> fault == Some(PromotionError::InsufficientEvaluation)
            &&& enough && !sound ==> fault == Some(PromotionError::InvalidReport)
            &&& enough && sound && riskier ==> fault == Some(PromotionError::SafetyRegression)
            &&& enough && sound && !riskier && slower ==> fault == Some(
                PromotionError::PerformanceRegression,
            )
        }),
{
}

/// A promotion needs a report on the very data, model and candidate at hand,
/// under an evaluation that is newer than any before, that supports it, and
/// something to promote.
pub proof fn promotions_need_a_current_report(
    state: ProfileState,
    report: PromotionReport,
    settings: AdaptiveSettings,
    candidate_hash: u64,
)
    ensures
        profile::promotion_fault(state, report, settings, candidate_hash) is None <==> {
            &&& report.candidate_data_revision == state.data_revision
            &&& report.expected_model_revision == state.active.revision
            &&& report.candidate_hash == candidate_hash
            &&& report.evaluation_id > state.last_evaluation_id
            &&& promotion::report_fault(report, settings) is None
            &&& profile::candidate(state, settings) != Map::<u128, u32>::empty()
            &&& state.active.revision < u64::MAX
        },
{
}

/// A promotion puts the candidate in place of the active model, which it keeps
/// for a rollback, and notes the evaluation; what was learned stays. A rollback
/// puts the kept model back under a newer revision and keeps none.
pub proof fn promotions_swap_models(
    state: ProfileState,
    report: PromotionReport,
    settings: AdaptiveSettings,
)
    requires
        state.active.revision < u64::MAX,
    ensures
        ({
            let after = state.promoted(report, settings);
            &&& after.active.multipliers == profile::candidate(state, settings)
            &&& after.active.revision == state.active.revision + 1
            &&& after.active.source_data_revision == state.data_revision
            &&& after.previous == Some(state.active)
            &&& after.last_evaluation_id == report.evaluation_id
            &&& after.estimates == state.estimates && after.data_revision == state.data_revision
            &&& after.recent == state.recent && after.high_water == state.high_water
        }),
        ({
            let after = state.rolled_back();
            state.previous matches Some(kept) ==> {
                &&& after.active.multipliers == kept.multipliers
                &&& after.active.source_data_revision == kept.source_data_revision
                &&& after.active.revision == state.active.revision + 1
                &&& after.previous is None
                &&& after.estimates == state.estimates && after.data_revision
                    == state.data_revision
            }
        }),
{
}

/// A candidate holds a multiplier for exactly the contexts with a proposal. It
/// moves from the active one, or from one million where there is none, towards
/// the proposal: all the way where that is within a step, and otherwise by
/// exactly one step. A step is the configured share of the active multiplier,
/// and at least one.
pub proof fn candidates_step_towards_their_proposals(
    state: ProfileState,
    settings: AdaptiveSettings,
    key: u128,
)
    requires
        settings.in_range(),
        state.active.multipliers.contains_key(key) ==> settings.minimum_multiplier_ppm
            <= state.active.multipliers[key] <= settings.maximum_multiplier_ppm,
    ensures
        profile::candidate(state, settings).contains_key(key) <==> (state.estimates.contains_key(
            key,
        ) && estimate::proposal(state.estimates[key], settings) is Some),
        profile::candidate(state, settings).contains_key(key) ==> {
            let current = if state.active.multipliers.contains_key(key) {
                state.active.multipliers[key] as int
            } else {
                1_000_000
            };
            let wanted = estimate::proposal(state.estimates[key], settings)->0 as int;
            let next = profile::candidate(state, settings)[key] as int;
            let share = current * settings.max_step_percent;
            &&& wanted >= current ==> current <= next <= wanted
            &&& wanted <= current ==> wanted <= next <= current
            &&& arith::abs_int(next - current) <= 1 || 100 * arith::abs_int(next - current) <= share
            &&& next != wanted ==> arith::abs_int(next - current) >= 1 && 100 * (arith::abs_int(
                next - current,
            ) + 1) > share
        },
{
    if profile::candidate(state, settings).contains_key(key) {
        let wanted = estimate::proposal(state.estimates[key], settings)->0;
        let trials = state.estimates[key].trial_count();
        assert(settings.minimum_multiplier_ppm <= wanted <= settings.maximum_multiplier_ppm);
        let current = profile::multiplier_at(state.active.multipliers, key);
        let share = current * settings.max_step_percent;
        assert(share >= 0) by (nonlinear_arith)
            requires
                share == current * settings.max_step_percent,
        ;
    }
}

/// A profile accepts an observation exactly where it is valid, belongs to it,
/// was made under its regime, and is no replay: its number is among the newest
/// and was not seen before.
pub proof fn profiles_accept_fresh_observations(state: ProfileState, observation: MoveObservation)
    ensures
        state.admits(observation) <==> {
            &&& observation.valid()
            &&& observation.context.profile@ == state.key
            &&& state.regime is None || state.regime == Some(observation.context.regime_view())
            &&& observation.id.nonce > 0
            &&& observation.id.nonce + profile::MAX_RECENT_COMPLETIONS > state.high_water
            &&& !state.recent.contains_key(observation.id.nonce as u128)
            &&& state.data_revision < u64::MAX
        },
{
}

/// An accepted observation teaches its own two contexts, the exact one and the
/// one its primitive shares, and no others: any other one is as it was, or gave
/// way as the exact one with the fewest trials when there were as many as
/// allowed.
pub proof fn observations_teach_their_own_contexts(
    state: ProfileState,
    observation: MoveObservation,
    settings: AdaptiveSettings,
    key: u128,
)
    requires
        state.valid(),
        observation.valid(),
        settings.in_range(),
    ensures
        ({
            let after = state.learned(observation, settings);
            let exact = features::exact_key(observation.primitive, observation.features) as u128;
            let shared = observation.primitive.0 as u128;
            let own = key == exact || key == shared;
            let before = if state.estimates.contains_key(key) {
                state.estimates[key]
            } else {
                estimate::fresh_estimate()
            };
            &&& after.data_revision == state.data_revision + 1 || state.data_revision == u64::MAX
            &&& after.high_water == arith::max_int(
                state.high_water as int,
                observation.id.nonce as int,
            )
            &&& own && key == shared ==> after.estimates.contains_key(key) && after.estimates[key]
                == estimate::estimate_after(before, observation, after.data_revision)
            &&& own && key == exact ==> after.estimates.contains_key(key) && after.estimates[key]
                == estimate::estimate_after(before, observation, after.data_revision)
            &&& !own && after.estimates.contains_key(key) ==> state.estimates.contains_key(key)
                && after.estimates[key] == state.estimates[key]
            &&& !own && state.estimates.contains_key(key) && !after.estimates.contains_key(key) ==> {
                &&& !state.estimates.contains_key(exact)
                &&& features::key_is_exact(key as u64)
                &&& forall|other: u128| #[trigger]
                    state.estimates.contains_key(other) && features::key_is_exact(other as u64)
                        ==> state.estimates[key].trial_count()
                        <= state.estimates[other].trial_count()
            }
        }),
{
    features::built_in_contexts_have_valid_keys(observation.primitive, observation.features);
    let exact = profile::exact_slot(observation);
    let shared = profile::fallback_slot(observation);
    assert(exact != shared);
    let room = profile::with_room(state.estimates, exact, settings.max_buckets);
    let slots = profile::exact_slots(state.estimates.dom());
    if !state.estimates.contains_key(exact) && slots.len() >= settings.max_buckets {
        let victim = profile::least_useful(state.estimates);
        vstd::set_lib::lemma_len_subset(slots, state.estimates.dom());
        profile_laws::full_profiles_have_a_victim(state.estimates);
        assert(profile::is_least_useful(state.estimates, victim));
        assert(slots.contains(victim));
        assert forall|other: u128| #[trigger]
            state.estimates.contains_key(other) && features::key_is_exact(
                other as u64,
            ) implies state.estimates[victim].trial_count()
            <= state.estimates[other].trial_count() by {
            assert(slots.contains(other));
        }
    }
}

/// An accepted number is remembered and none of the newest ones is forgotten;
/// what is forgotten is too old to be accepted again.
pub proof fn completions_are_remembered(
    state: ProfileState,
    observation: MoveObservation,
    settings: AdaptiveSettings,
    nonce: u64,
)
    requires
        state.admits(observation),
    ensures
        ({
            let after = state.learned(observation, settings);
            let known = state.recent.contains_key(nonce as u128) || nonce == observation.id.nonce;
            &&& after.recent.contains_key(nonce as u128) ==> known
            &&& known && nonce > 0 && nonce + profile::MAX_RECENT_COMPLETIONS > after.high_water
                ==> after.recent.contains_key(nonce as u128)
            &&& after.recent.contains_key(observation.id.nonce as u128)
            &&& after.recent[observation.id.nonce as u128] == observation.id
        }),
{
}

/// A leg routes by the active model of a profile only under the very regime and
/// costs that it was learned under; anything else runs on the bare baseline.
pub proof fn foreign_regimes_run_on_the_baseline(
    state: ProfileState,
    baseline: MovementCosts,
    settings: AdaptiveSettings,
    regime: context::Regime,
    costs_hash: u64,
    snapshot: CostModelSnapshot,
)
    requires
        profile::freezes(state, baseline, settings, regime, costs_hash, snapshot),
    ensures
        snapshot.mode == settings.mode,
        snapshot.baseline == baseline,
        state.regime != Some(regime) || costs_hash != regime.baseline_costs_hash
            ==> snapshot.active_model() == Map::<u128, u32>::empty() && snapshot.candidate_model()
            == Map::<u128, u32>::empty() && snapshot.model_revision == 0
            && snapshot.data_revision == 0,
        state.regime == Some(regime) && costs_hash == regime.baseline_costs_hash
            && regime.valid_for(state.key) ==> snapshot.active_model() == state.active.multipliers
            && snapshot.model_revision == state.active.revision && snapshot.data_revision
            == state.data_revision,
{
}

/// A valid profile remembers only what could still be replayed: each completion
/// under its own nonce, no newer than the newest and among the last 4096.
pub proof fn valid_profiles_remember_the_replay_window(state: ProfileState, nonce: u128)
    requires
        state.valid(),
        state.recent.contains_key(nonce),
    ensures
        state.recent[nonce].nonce == nonce,
        0 < nonce <= state.high_water,
        state.high_water - nonce < 4_096,
{
}

/// The models of a valid profile change no price by more than a factor: down to
/// a tenth, up to fourfold. The model before the active one is an older one, and
/// none has learned from telemetry that the profile has not.
pub proof fn valid_profiles_hold_moderate_models(state: ProfileState, key: u128)
    requires
        state.valid(),
    ensures
        state.active.multipliers.contains_key(key) ==> 100_000 <= state.active.multipliers[key]
            <= 4_000_000,
        state.active.source_data_revision <= state.data_revision,
        state.previous matches Some(previous) ==> {
            &&& previous.multipliers.contains_key(key) ==> 100_000 <= previous.multipliers[key]
                <= 4_000_000
            &&& previous.revision < state.active.revision
            &&& previous.source_data_revision <= state.data_revision
        },
        state.active.revision == 0 ==> state.active.multipliers =~= Map::<u128, u32>::empty()
            && state.previous is None,
{
}

/// A valid profile that has seen nothing knows nothing, and one that has seen
/// something knows under which regime, in which contexts and how recently.
pub proof fn valid_profiles_know_what_they_saw(state: ProfileState)
    requires
        state.valid(),
    ensures
        state.data_revision == 0 ==> {
            &&& state.regime is None
            &&& state.estimates =~= Map::<u128, crate::adaptive::estimate::PrimitiveEstimate>::empty()
            &&& state.recent.dom() =~= Set::<u128>::empty()
            &&& state.high_water == 0
            &&& state.active.revision == 0
            &&& state.last_evaluation_id == 0
        },
        state.data_revision > 0 ==> {
            &&& state.regime is Some
            &&& state.high_water > 0
            &&& state.estimates.dom().len() > 0
            &&& state.recent.dom().len() > 0
        },
        state.regime matches Some(regime) ==> regime.actor_capability_hash
            == state.key.capability_hash,
{
}

} // verus!
