//! What an observation was made under: profile, leg and frozen settings.
use vstd::prelude::*;

use crate::text;
use crate::text::{same_text, valid_context_text};

verus! {

pub const ADAPTIVE_SCHEMA_VERSION: u16 = 4;

/// Context that prevents observations from unrelated physics regimes from
/// contaminating one another.
#[derive(PartialEq, Eq, PartialOrd, Ord, Debug)]
pub struct ProfileKey {
    /// Explicit operator-provided server/profile key. It is never inferred.
    pub server: String,
    pub protocol: u32,
    pub dimension: String,
    pub capability_hash: u64,
    pub latency_bucket_ms: u16,
    /// Manual operator metadata such as an anticheat policy.
    pub environment: String,
}

/// The content of a [`ProfileKey`].
#[verifier::ext_equal]
pub struct ProfileName {
    pub server: Seq<char>,
    pub protocol: u32,
    pub dimension: Seq<char>,
    pub capability_hash: u64,
    pub latency_bucket_ms: u16,
    pub environment: Seq<char>,
}

impl ProfileName {
    pub open spec fn valid(self) -> bool {
        text::is_context_text(self.server) && text::is_context_text(self.dimension)
            && text::is_context_text(self.environment)
    }
}

impl View for ProfileKey {
    type V = ProfileName;

    open spec fn view(&self) -> ProfileName {
        ProfileName {
            server: self.server@,
            protocol: self.protocol,
            dimension: self.dimension@,
            capability_hash: self.capability_hash,
            latency_bucket_ms: self.latency_bucket_ms,
            environment: self.environment@,
        }
    }
}

impl Clone for ProfileKey {
    fn clone(&self) -> (copy: ProfileKey)
        ensures
            copy == *self,
    {
        ProfileKey {
            server: self.server.clone(),
            protocol: self.protocol,
            dimension: self.dimension.clone(),
            capability_hash: self.capability_hash,
            latency_bucket_ms: self.latency_bucket_ms,
            environment: self.environment.clone(),
        }
    }
}

impl ProfileKey {
    /// A safe test/offline key. Production callers should provide their actual
    /// server and dimension before enabling adaptation.
    pub fn local_default() -> (key: ProfileKey)
        ensures
            key@ == (ProfileName {
                server: "local-test-only"@,
                protocol: 0,
                dimension: "unknown"@,
                capability_hash: 0,
                latency_bucket_ms: 0,
                environment: "shadow"@,
            }),
            key@.valid(),
    {
        let key = ProfileKey {
            server: "local-test-only".to_owned(),
            protocol: 0,
            dimension: "unknown".to_owned(),
            capability_hash: 0,
            latency_bucket_ms: 0,
            environment: "shadow".to_owned(),
        };
        proof {
            reveal_strlit("local-test-only");
            reveal_strlit("unknown");
            reveal_strlit("shadow");
            text::lemma_plain_text("local-test-only"@);
            text::lemma_plain_text("unknown"@);
            text::lemma_plain_text("shadow"@);
        }
        key
    }

    pub fn validate(&self) -> (r: bool)
        ensures
            r == self@.valid(),
    {
        valid_context_text(self.server.as_str()) && valid_context_text(self.dimension.as_str())
            && valid_context_text(self.environment.as_str())
    }

    pub fn is_same(&self, other: &ProfileKey) -> (r: bool)
        ensures
            r == (self@ == other@),
    {
        same_text(self.server.as_str(), other.server.as_str()) && self.protocol == other.protocol
            && same_text(self.dimension.as_str(), other.dimension.as_str()) && self.capability_hash
            == other.capability_hash && self.latency_bucket_ms == other.latency_bucket_ms
            && same_text(self.environment.as_str(), other.environment.as_str())
    }
}

#[derive(Clone, Copy, PartialEq, Eq, Structural, Debug)]
pub enum InterruptionReason {
    Pause,
    Cancelled,
    GoalChanged,
    WorldChanged,
    ExternalImpulse,
    ServerCorrection,
    Unknown,
}

#[derive(Clone, Copy, PartialEq, Eq, Structural, Debug)]
pub enum ObservationOutcome {
    Success,
    Stalled,
    Unsafe,
    FellOff,
    TimedOut,
    Interrupted(InterruptionReason),
}

/// Evidence supplied by the executor that explains why an attempt ended.
#[derive(Clone, Copy, PartialEq, Eq, Structural, Debug)]
pub enum AttributionEvidence {
    ReachedPlannedNode,
    StallDetector,
    LiveValidationFailure,
    FellBelowPath,
    CumulativeDeadline,
    PauseOrCancellation,
    ExternalMovementEvent,
}

/// The settings and actor that a model was learned under.
#[derive(PartialEq, Eq, Debug)]
pub struct AdaptiveRegime {
    pub build_id: String,
    pub planner_settings_hash: u64,
    pub control_settings_hash: u64,
    pub baseline_costs_hash: u64,
    pub actor_capability_hash: u64,
}

/// The content of an [`AdaptiveRegime`].
#[verifier::ext_equal]
pub struct Regime {
    pub build_id: Seq<char>,
    pub planner_settings_hash: u64,
    pub control_settings_hash: u64,
    pub baseline_costs_hash: u64,
    pub actor_capability_hash: u64,
}

impl Regime {
    pub open spec fn valid_for(self, key: ProfileName) -> bool {
        &&& text::is_context_text(self.build_id)
        &&& self.planner_settings_hash != 0
        &&& self.control_settings_hash != 0
        &&& self.baseline_costs_hash != 0
        &&& self.actor_capability_hash == key.capability_hash
    }
}

impl View for AdaptiveRegime {
    type V = Regime;

    open spec fn view(&self) -> Regime {
        Regime {
            build_id: self.build_id@,
            planner_settings_hash: self.planner_settings_hash,
            control_settings_hash: self.control_settings_hash,
            baseline_costs_hash: self.baseline_costs_hash,
            actor_capability_hash: self.actor_capability_hash,
        }
    }
}

impl Clone for AdaptiveRegime {
    fn clone(&self) -> (copy: AdaptiveRegime)
        ensures
            copy == *self,
    {
        AdaptiveRegime {
            build_id: self.build_id.clone(),
            planner_settings_hash: self.planner_settings_hash,
            control_settings_hash: self.control_settings_hash,
            baseline_costs_hash: self.baseline_costs_hash,
            actor_capability_hash: self.actor_capability_hash,
        }
    }
}

impl AdaptiveRegime {
    pub fn validate_for(&self, key: &ProfileKey) -> (r: bool)
        ensures
            r == self@.valid_for(key@),
    {
        valid_context_text(self.build_id.as_str()) && self.planner_settings_hash != 0
            && self.control_settings_hash != 0 && self.baseline_costs_hash != 0
            && self.actor_capability_hash == key.capability_hash
    }

    pub fn is_same(&self, other: &AdaptiveRegime) -> (r: bool)
        ensures
            r == (self@ == other@),
    {
        same_text(self.build_id.as_str(), other.build_id.as_str()) && self.planner_settings_hash
            == other.planner_settings_hash && self.control_settings_hash
            == other.control_settings_hash && self.baseline_costs_hash == other.baseline_costs_hash
            && self.actor_capability_hash == other.actor_capability_hash
    }
}

/// Immutable metadata frozen when one navigation leg is planned.
#[derive(PartialEq, Eq, Debug)]
pub struct ObservationContext {
    pub profile: ProfileKey,
    pub journey_id: u64,
    pub generation: u64,
    pub leg: u32,
    pub plan_revision: u64,
    pub world_revision: u64,
    pub model_revision: u64,
    pub planner_settings_hash: u64,
    pub control_settings_hash: u64,
    pub baseline_costs_hash: u64,
    pub actor_capability_hash: u64,
    pub build_id: String,
    pub created_unix_ms: u64,
}

impl Clone for ObservationContext {
    fn clone(&self) -> (copy: ObservationContext)
        ensures
            copy == *self,
    {
        ObservationContext {
            profile: self.profile.clone(),
            journey_id: self.journey_id,
            generation: self.generation,
            leg: self.leg,
            plan_revision: self.plan_revision,
            world_revision: self.world_revision,
            model_revision: self.model_revision,
            planner_settings_hash: self.planner_settings_hash,
            control_settings_hash: self.control_settings_hash,
            baseline_costs_hash: self.baseline_costs_hash,
            actor_capability_hash: self.actor_capability_hash,
            build_id: self.build_id.clone(),
            created_unix_ms: self.created_unix_ms,
        }
    }
}

impl ObservationContext {
    pub open spec fn valid(self) -> bool {
        &&& self.profile@.valid()
        &&& self.journey_id != 0
        &&& self.planner_settings_hash != 0
        &&& self.control_settings_hash != 0
        &&& self.baseline_costs_hash != 0
        &&& self.actor_capability_hash == self.profile.capability_hash
        &&& text::is_context_text(self.build_id@)
    }

    pub fn validate(&self) -> (r: bool)
        ensures
            r == self.valid(),
    {
        self.profile.validate() && self.journey_id != 0 && self.planner_settings_hash != 0
            && self.control_settings_hash != 0 && self.baseline_costs_hash != 0
            && self.actor_capability_hash == self.profile.capability_hash && valid_context_text(
            self.build_id.as_str(),
        )
    }

    /// The regime the leg runs under.
    pub open spec fn regime_view(self) -> Regime {
        Regime {
            build_id: self.build_id@,
            planner_settings_hash: self.planner_settings_hash,
            control_settings_hash: self.control_settings_hash,
            baseline_costs_hash: self.baseline_costs_hash,
            actor_capability_hash: self.actor_capability_hash,
        }
    }

    pub fn regime(&self) -> (regime: AdaptiveRegime)
        ensures
            regime@ == self.regime_view(),
    {
        AdaptiveRegime {
            build_id: self.build_id.clone(),
            planner_settings_hash: self.planner_settings_hash,
            control_settings_hash: self.control_settings_hash,
            baseline_costs_hash: self.baseline_costs_hash,
            actor_capability_hash: self.actor_capability_hash,
        }
    }
}

#[derive(Clone, Copy, PartialEq, Eq, PartialOrd, Ord, Hash, Structural, Debug)]
pub struct ObservationId {
    /// Process-unique, time-seeded monotonic anti-replay nonce.
    pub nonce: u64,
    pub journey_id: u64,
    pub generation: u64,
    pub leg: u32,
    pub edge_index: u32,
    pub attempt: u16,
}

/// A valid context runs under a regime that is valid for its own profile.
pub proof fn valid_contexts_have_valid_regimes(context: ObservationContext)
    requires
        context.valid(),
    ensures
        context.regime_view().valid_for(context.profile@),
{
}

} // verus!
