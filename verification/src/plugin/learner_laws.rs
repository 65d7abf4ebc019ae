//! What the bounded learner makes of what it is told.
use vstd::prelude::*;

use crate::adaptive::context;
use crate::adaptive::estimate::AdaptiveSettings;
use crate::adaptive::observation;
use crate::adaptive::observation::MoveObservation;
use crate::adaptive::profile;
use crate::adaptive::telemetry::ProfileError;
use crate::plugin::runtime;
use crate::plugin::runtime::{ProfileInstallPolicy, RuntimeState};

verus! {

/// Whether the learner has as many profiles as it may have, and none of a key.
pub open spec fn full_without(state: RuntimeState, key: context::ProfileName) -> bool {
    !state.profiles.contains_key(key) && state.profiles.dom().len()
        >= runtime::MAX_ADAPTIVE_PROFILES
}

/// An observation counts as dropped exactly where it is invalid, or where its
/// profile is new and there is no room for it; then nothing else changes. Any
/// other one is handed to its own profile, which is made if it is new.
pub proof fn observations_reach_their_profile(
    state: RuntimeState,
    seen: MoveObservation,
    settings: AdaptiveSettings,
)
    requires
        state.dropped < u64::MAX,
    ensures
        ({
            let key = seen.context.profile@;
            let after = state.observed(seen, settings);
            let before = if state.profiles.contains_key(key) {
                state.profiles[key]
            } else {
                profile::fresh(key)
            };
            let dropped = !seen.valid() || full_without(state, key);
            &&& dropped ==> after.profiles == state.profiles && after.dropped == state.dropped + 1
            &&& !dropped ==> after.dropped == state.dropped && after.profiles.contains_key(key)
            &&& !dropped && before.admits(seen) && before.can_count(seen) && before.key == key
                ==> after.profiles[key] == before.learned(seen, settings)
            &&& !dropped && !before.admits(seen) && before.key == key ==> after.profiles[key]
                == before
            &&& state.learns(seen) <==> !dropped && before.admits(seen) && before.can_count(seen)
        }),
{
}

/// A profile is installed exactly where it is valid, replaces none that must
/// stay, fits, and leaves numbers to give out.
pub proof fn installs_are_checked(
    state: RuntimeState,
    new: profile::ProfileState,
    policy: ProfileInstallPolicy,
)
    ensures
        ({
            let fault = runtime::install_fault(state, new, policy);
            let known = state.profiles.contains_key(new.key);
            let kept = known && policy is RejectExisting;
            &&& fault is None <==> {
                &&& new.valid()
                &&& !kept
                &&& !full_without(state, new.key)
                &&& new.high_water < observation::MAX_OBSERVATION_NONCE
            }
            &&& !new.valid() ==> fault == Some(ProfileError::Invalid)
            &&& new.valid() && kept ==> fault == Some(ProfileError::AlreadyExists)
            &&& new.valid() && !known && full_without(state, new.key) ==> fault == Some(
                ProfileError::Capacity,
            )
        }),
{
}

/// Observations are learned from one after the other, in their order.
pub proof fn observations_are_learned_in_order(
    state: RuntimeState,
    first: Seq<MoveObservation>,
    last: MoveObservation,
    settings: AdaptiveSettings,
)
    ensures
        crate::plugin::navigation::observed_all(state, first.push(last), settings)
            == crate::plugin::navigation::observed_all(state, first, settings).observed(
            last,
            settings,
        ),
        crate::plugin::navigation::observed_all(state, Seq::empty(), settings) == state,
{
    assert(first.push(last).drop_last() =~= first);
}

} // verus!
