//! What every operation on a profile keeps true.
use vstd::prelude::*;

use crate::adaptive::context;
use crate::adaptive::estimate;
use crate::adaptive::estimate::{AdaptiveSettings, PrimitiveEstimate, MAX_PROFILE_BUCKETS};
use crate::adaptive::features;
use crate::adaptive::model::{AdaptiveMode, CostModelSnapshot};
use crate::adaptive::observation::MoveObservation;
use crate::adaptive::profile;
use crate::adaptive::promotion::PromotionReport;
use crate::local::moves::MovementCosts;

verus! {

/// A new profile is valid if its key is.
pub proof fn new_profiles_are_valid(key: context::ProfileName)
    ensures
        profile::fresh(key).valid() <==> key.valid(),
{
    assert(profile::exact_slots(profile::fresh(key).estimates.dom()) =~= Set::empty());
}

proof fn lemma_usefulness_is_total(
    estimates: Map<u128, PrimitiveEstimate>,
    a: u128,
    b: u128,
    c: u128,
)
    ensures
        a == b || profile::less_useful(estimates, a, b) || profile::less_useful(estimates, b, a),
        profile::less_useful(estimates, a, b) && profile::less_useful(estimates, b, c)
            ==> profile::less_useful(estimates, a, c),
{
}

/// Among finitely many buckets one is worth least.
proof fn lemma_some_least(estimates: Map<u128, PrimitiveEstimate>, keys: Set<u128>) -> (least: u128)
    requires
        keys.finite(),
        keys.len() > 0,
    ensures
        keys.contains(least),
        forall|other: u128| #[trigger]
            keys.contains(other) ==> other == least || profile::less_useful(
                estimates,
                least,
                other,
            ),
    decreases keys.len(),
{
    let one = keys.choose();
    let rest = keys.remove(one);
    if rest.len() == 0 {
        assert forall|other: u128| #[trigger] keys.contains(other) implies other == one by {
            if other != one {
                assert(rest.contains(other));
            }
        }
        one
    } else {
        let least = lemma_some_least(estimates, rest);
        lemma_usefulness_is_total(estimates, one, least, least);
        let best = if profile::less_useful(estimates, one, least) {
            one
        } else {
            least
        };
        assert forall|other: u128| #[trigger] keys.contains(other) implies other == best
            || profile::less_useful(estimates, best, other) by {
            if other != one {
                assert(rest.contains(other));
                lemma_usefulness_is_total(estimates, one, least, other);
            }
        }
        best
    }
}

/// Eviction has a victim whenever there is an exact bucket.
pub proof fn full_profiles_have_a_victim(estimates: Map<u128, PrimitiveEstimate>)
    requires
        estimates.dom().finite(),
        profile::exact_slots(estimates.dom()).len() > 0,
    ensures
        profile::is_least_useful(estimates, profile::least_useful(estimates)),
{
    let least = lemma_some_least(estimates, profile::exact_slots(estimates.dom()));
    assert(profile::is_least_useful(estimates, least));
}

/// The fallback keys are the built-in primitives, and there are eleven.
proof fn lemma_few_fallbacks(keys: Set<u128>)
    requires
        keys.finite(),
        forall|key: u128| #[trigger]
            keys.contains(key) ==> key <= u64::MAX && features::key_is_valid(key as u64),
    ensures
        profile::exact_slots(keys).finite(),
        keys.len() - profile::exact_slots(keys).len() <= 11,
{
    let exact = profile::exact_slots(keys);
    let rest = keys.difference(exact);
    let ids: Set<u128> = set![1u128, 2, 3, 4, 5, 6, 7, 8, 9, 10, 11];
    assert forall|key: u128| #[trigger] rest.contains(key) implies ids.contains(key) by {
        assert(!features::key_is_exact(key as u64));
        assert(features::key_is_valid(key as u64));
        features::lemma_fallback_keys(key as u64);
    }
    assert(ids.len() <= 11);
    vstd::set_lib::lemma_len_subset(rest, ids);
    assert(exact.union(rest) =~= keys);
    assert(exact.disjoint(rest));
    vstd::set_lib::lemma_set_disjoint_lens(exact, rest);
}

/// A window of nonces holds no more of them than it is wide.
proof fn lemma_window(nonces: Set<u128>, low: int, high: int)
    requires
        nonces.finite(),
        0 <= low <= high <= u64::MAX,
        forall|n: u128| #[trigger] nonces.contains(n) ==> low < n <= high,
    ensures
        nonces.len() <= high - low,
    decreases high - low,
{
    if low == high {
        assert(nonces =~= Set::empty());
    } else {
        let top = high as u128;
        lemma_window(nonces.remove(top), low, high - 1);
    }
}

/// Inserting a key adds it to the exact buckets just when it is exact.
proof fn lemma_exact_with(keys: Set<u128>, key: u128)
    requires
        keys.finite(),
    ensures
        profile::exact_slots(keys).finite(),
        profile::exact_slots(keys.insert(key)) == if features::key_is_exact(key as u64) {
            profile::exact_slots(keys).insert(key)
        } else {
            profile::exact_slots(keys)
        },
{
    if features::key_is_exact(key as u64) {
        assert(profile::exact_slots(keys.insert(key)) =~= profile::exact_slots(keys).insert(key));
    } else {
        assert(profile::exact_slots(keys.insert(key)) =~= profile::exact_slots(keys));
    }
}

proof fn lemma_exact_without(keys: Set<u128>, key: u128)
    requires
        keys.finite(),
        features::key_is_exact(key as u64),
    ensures
        profile::exact_slots(keys.remove(key)) == profile::exact_slots(keys).remove(key),
{
    assert(profile::exact_slots(keys.remove(key)) =~= profile::exact_slots(keys).remove(key));
}

/// Teaching keeps the buckets valid and within their bounds.
proof fn lemma_taught_stays_valid(
    state: profile::ProfileState,
    observation: MoveObservation,
    settings: AdaptiveSettings,
)
    requires
        state.valid(),
        settings.in_range(),
        state.admits(observation),
        state.can_count(observation),
    ensures
        ({
            let after = state.learned(observation, settings);
            &&& after.estimates.dom().finite()
            &&& after.estimates_valid()
            &&& profile::exact_slots(after.estimates.dom()).len() <= MAX_PROFILE_BUCKETS
            &&& after.estimates.dom().len() > 0
        }),
{
    let arrival = (state.data_revision + 1) as u64;
    let fallback = profile::fallback_slot(observation);
    let exact = profile::exact_slot(observation);
    features::built_in_contexts_have_valid_keys(observation.primitive, observation.features);
    let before = state.estimates;
    let room = profile::with_room(before, exact, settings.max_buckets);
    let once = profile::taught_at(room, fallback, observation, arrival);
    let twice = profile::taught_at(once, exact, observation, arrival);
    lemma_exact_with(before.dom(), exact);
    if !before.contains_key(exact) && profile::exact_slots(before.dom()).len()
        >= settings.max_buckets {
        full_profiles_have_a_victim(before);
        let victim = profile::least_useful(before);
        lemma_exact_without(before.dom(), victim);
        assert(room.dom() =~= before.dom().remove(victim));
    }
    lemma_exact_with(room.dom(), fallback);
    assert(once.dom() =~= room.dom().insert(fallback));
    lemma_exact_with(once.dom(), exact);
    assert(twice.dom() =~= once.dom().insert(exact));
    assert(twice.contains_key(exact));
    assert forall|key: u128| #[trigger] twice.contains_key(key) implies key <= u64::MAX
        && features::key_is_valid(key as u64) && twice[key].valid() && 0
        < twice[key].last_sequence <= arrival by {
        if key == exact {
            estimate::learning_keeps_estimates_valid(
                profile::estimate_at(once, exact),
                observation,
                arrival,
            );
        } else if key == fallback {
            estimate::learning_keeps_estimates_valid(
                profile::estimate_at(room, fallback),
                observation,
                arrival,
            );
        } else {
            assert(before.contains_key(key));
        }
    }
    if before.contains_key(exact) {
        assert(profile::exact_slots(before.dom()).contains(exact));
        assert(profile::exact_slots(before.dom()).insert(exact) =~= profile::exact_slots(
            before.dom(),
        ));
    }
}

/// Learning from an observation keeps a profile valid.
pub proof fn observing_keeps_profiles_valid(
    state: profile::ProfileState,
    observation: MoveObservation,
    settings: AdaptiveSettings,
)
    requires
        state.valid(),
        settings.in_range(),
        state.admits(observation),
    ensures
        state.can_count(observation) ==> state.learned(observation, settings).valid(),
        !state.can_count(observation) ==> state.under_regime(observation) == state,
{
    if state.can_count(observation) {
        let after = state.learned(observation, settings);
        lemma_taught_stays_valid(state, observation, settings);
        lemma_few_fallbacks(after.estimates.dom());
        context::valid_contexts_have_valid_regimes(observation.context);
        let nonce = observation.id.nonce as u128;
        let all = state.recent.dom().insert(nonce);
        assert(after.recent.dom().subset_of(all));
        vstd::set_lib::lemma_len_subset(after.recent.dom(), all);
        lemma_window(
            after.recent.dom(),
            profile::replay_floor(after.high_water),
            after.high_water as int,
        );
        assert(after.recent.contains_key(nonce));
        assert(after.recent.dom().len() > 0);
    } else if state.data_revision == 0 {
        assert(state.estimates == Map::<u128, PrimitiveEstimate>::empty());
        assert(false);
    } else {
        assert(state.under_regime(observation) =~= state);
    }
}

/// Promoting a candidate keeps a profile valid.
pub proof fn promoting_keeps_profiles_valid(
    state: profile::ProfileState,
    report: PromotionReport,
    settings: AdaptiveSettings,
    candidate_hash: u64,
)
    requires
        state.valid(),
        settings.in_range(),
        profile::promotion_fault(state, report, settings, candidate_hash) is None,
    ensures
        state.promoted(report, settings).valid(),
{
    let after = state.promoted(report, settings);
    let next = profile::candidate(state, settings);
    assert(next.dom().subset_of(state.estimates.dom()));
    vstd::set_lib::lemma_len_subset(next.dom(), state.estimates.dom());
    assert forall|key: u128| #[trigger] next.contains_key(key) implies key <= u64::MAX
        && features::key_is_valid(key as u64) && 100_000 <= next[key] <= 4_000_000 by {
        assert(state.estimates.contains_key(key));
        profile::promotions_take_bounded_steps(state, settings, key);
    }
    if state.data_revision == 0 {
        assert(next =~= Map::<u128, u32>::empty());
    }
}

/// Rolling back keeps a profile valid, even when the revision space is
/// exhausted and only the kept model is dropped.
pub proof fn rolling_back_keeps_profiles_valid(state: profile::ProfileState)
    requires
        state.valid(),
        state.previous is Some,
    ensures
        state.active.revision < u64::MAX ==> state.rolled_back().valid(),
        (profile::ProfileState { previous: None, ..state }).valid(),
{
}

/// Whether a nonce can no longer be accepted.
pub open spec fn spent(state: profile::ProfileState, nonce: u64) -> bool {
    state.recent.contains_key(nonce as u128) || nonce <= profile::replay_floor(state.high_water)
}

/// An observation is accepted at most once: its nonce is spent as soon as it
/// is accepted, stays spent through everything learned after it, and a spent
/// nonce is never admitted.
pub proof fn observations_count_at_most_once(
    state: profile::ProfileState,
    observation: MoveObservation,
    settings: AdaptiveSettings,
    nonce: u64,
    replay: MoveObservation,
)
    requires
        nonce == observation.id.nonce || spent(state, nonce),
        replay.id.nonce == nonce,
    ensures
        spent(state.learned(observation, settings), nonce),
        spent(state.learned(observation, settings), nonce) ==> !state.learned(
            observation,
            settings,
        ).admits(replay),
        spent(state, nonce) ==> !state.admits(replay),
{
}

/// A model changes routes only where all of this holds: adaptation is enabled,
/// the leg runs under the profile's own regime and costs, and something was
/// promoted.
pub proof fn only_promoted_models_route(
    state: profile::ProfileState,
    baseline: MovementCosts,
    settings: AdaptiveSettings,
    regime: context::Regime,
    costs_hash: u64,
    snapshot: CostModelSnapshot,
)
    requires
        profile::freezes(state, baseline, settings, regime, costs_hash, snapshot),
    ensures
        snapshot.routes() ==> {
            &&& settings.mode == AdaptiveMode::Enabled
            &&& regime.valid_for(state.key)
            &&& costs_hash == regime.baseline_costs_hash
            &&& state.regime == Some(regime)
            &&& state.active.multipliers != Map::<u128, u32>::empty()
        },
{
}

/// Learning never promotes: however much is observed, the active model and the
/// one kept for a rollback stay as they are, and a new profile has neither.
pub proof fn learning_never_promotes(
    state: profile::ProfileState,
    observation: MoveObservation,
    settings: AdaptiveSettings,
    key: context::ProfileName,
)
    ensures
        state.learned(observation, settings).active == state.active,
        state.learned(observation, settings).previous == state.previous,
        profile::fresh(key).active.multipliers == Map::<u128, u32>::empty(),
        profile::fresh(key).previous is None,
{
}

} // verus!
