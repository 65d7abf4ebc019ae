//! What an attempt needs to be observed, and what an observation shows.
use vstd::prelude::*;

use crate::adaptive::context::{
    AttributionEvidence, ObservationContext, ObservationId, ObservationOutcome,
};
use crate::adaptive::features::{CostComponents, MoveFeatures, PrimitiveId};
use crate::adaptive::observation;
use crate::adaptive::observation::{MoveAttempt, MoveObservation, ObservationError};
use crate::text;

verus! {

/// Text that names a context is never empty, holds no control character, and is
/// at most 128 bytes long.
pub proof fn context_text_is_short_and_printable(name: Seq<char>)
    ensures
        text::is_context_text(name) ==> 0 < vstd::utf8::encode_utf8(name).len() <= 128,
        text::is_context_text(name) ==> forall|i: int|
            0 <= i < name.len() ==> (#[trigger] name[i]) as u32 >= 0x20 && !(0x7f <= name[i] as u32
                <= 0x9f),
        name.len() > 0 && vstd::utf8::encode_utf8(name).len() <= 128 && (forall|i: int|
            0 <= i < name.len() ==> (#[trigger] name[i]) as u32 >= 0x20 && !(0x7f <= name[i] as u32
                <= 0x9f)) ==> text::is_context_text(name),
{
    if text::is_context_text(name) {
        assert forall|i: int| 0 <= i < name.len() implies (#[trigger] name[i]) as u32 >= 0x20 && !(
        0x7f <= name[i] as u32 <= 0x9f) by {
            assert(!text::is_control(name[i]));
        }
        lemma_some_bytes(name);
    }
}

proof fn lemma_some_bytes(name: Seq<char>)
    requires
        name.len() > 0,
    ensures
        vstd::utf8::encode_utf8(name).len() > 0,
{
    if vstd::utf8::encode_utf8(name).len() == 0 {
        vstd::utf8::encode_utf8_decode_utf8(name);
        let none: Seq<char> = Seq::empty();
        vstd::utf8::encode_utf8_decode_utf8(none);
        assert(vstd::utf8::encode_utf8(none) =~= Seq::empty());
        assert(vstd::utf8::encode_utf8(name) =~= Seq::empty());
        assert(name == none);
    }
}

/// A leg is observed only where its journey, its build and its settings have
/// names, and where the actor is the one its profile is about.
pub proof fn nameless_contexts_are_refused(context: ObservationContext)
    requires
        context.valid(),
    ensures
        context.journey_id != 0,
        context.planner_settings_hash != 0,
        context.control_settings_hash != 0,
        context.baseline_costs_hash != 0,
        context.actor_capability_hash == context.profile.capability_hash,
        context.build_id@.len() > 0,
        context.profile.server@.len() > 0,
        context.profile.dimension@.len() > 0,
        context.profile.environment@.len() > 0,
{
}

/// Nothing else of a leg decides whether it can be observed: its counters,
/// revisions and time may be anything.
pub proof fn counters_never_spoil_a_context(a: ObservationContext, b: ObservationContext)
    requires
        a.valid(),
        b == (ObservationContext {
            generation: b.generation,
            leg: b.leg,
            plan_revision: b.plan_revision,
            world_revision: b.world_revision,
            model_revision: b.model_revision,
            created_unix_ms: b.created_unix_ms,
            ..a
        }),
    ensures
        b.valid(),
{
}

/// An attempt begins only in the journey, generation and leg of its context,
/// with a nonce that is neither zero nor spent, and with a prediction.
pub proof fn attempts_belong_to_their_leg(attempt: MoveAttempt)
    requires
        attempt.begun(),
    ensures
        attempt.context.valid(),
        attempt.id.journey_id == attempt.context.journey_id,
        attempt.id.generation == attempt.context.generation,
        attempt.id.leg == attempt.context.leg,
        0 < attempt.id.nonce < u64::MAX - 2,
        attempt.predicted_ticks > 0,
        attempt.predicted.sum() > 0,
        attempt.primitive.builtin(),
        attempt.features.valid(),
{
}

/// Each fault is reported for what is wrong, and the first of several.
pub proof fn begin_faults_name_what_is_wrong(
    context: ObservationContext,
    id: ObservationId,
    primitive: PrimitiveId,
    features: MoveFeatures,
    predicted: CostComponents,
    predicted_ticks: u32,
)
    ensures
        ({
            let fault = observation::begin_fault(
                context,
                id,
                primitive,
                features,
                predicted,
                predicted_ticks,
            );
            &&& context.journey_id == 0 ==> fault == Some(ObservationError::InvalidContext)
            &&& context.valid() && primitive.builtin() && features.valid() && (id.nonce == 0
                || id.leg != context.leg || id.generation != context.generation || id.journey_id
                != context.journey_id) ==> fault == Some(ObservationError::InvalidIdentity)
            &&& predicted_ticks == 0 ==> fault is Some
            &&& fault == Some(ObservationError::InvalidPrediction) ==> predicted_ticks == 0
                || predicted.sum() == 0
            &&& fault == Some(ObservationError::InvalidPrimitive) ==> !primitive.builtin()
            &&& fault == Some(ObservationError::InvalidFeatures) ==> !features.valid()
        }),
{
}

/// A valid observation ends no earlier than it began and at most a thousand
/// seconds of ticks later, and what succeeded took time.
pub proof fn observations_take_plausible_times(o: MoveObservation)
    requires
        o.valid(),
    ensures
        o.began_tick <= o.ended_tick,
        o.ended_tick - o.began_tick <= 20_000,
        o.outcome is Success ==> o.ticks_taken() > 0,
        o.ticks_taken() == o.ended_tick - o.began_tick,
{
}

/// What the player stopped is shown by the stop, what anything else interrupted
/// by an event, and what failed by the check that saw it fail: no interruption
/// passes for a failure or a success, nor the other way round.
pub proof fn evidence_tells_outcomes_apart(o: MoveObservation)
    requires
        o.valid(),
    ensures
        o.evidence is ReachedPlannedNode <==> o.outcome is Success,
        o.evidence is StallDetector <==> o.outcome is Stalled,
        o.evidence is LiveValidationFailure <==> o.outcome is Unsafe,
        o.evidence is FellBelowPath <==> o.outcome is FellOff,
        o.evidence is CumulativeDeadline <==> o.outcome is TimedOut,
        o.evidence is PauseOrCancellation <==> (o.outcome matches ObservationOutcome::Interrupted(
            reason,
        ) && (reason is Pause || reason is Cancelled || reason is GoalChanged)),
        o.evidence is ExternalMovementEvent <==> (o.outcome matches ObservationOutcome::Interrupted(
            reason,
        ) && (reason is WorldChanged || reason is ExternalImpulse || reason is ServerCorrection
            || reason is Unknown)),
{
}

/// What an attempt predicted, and where it led, is what its observation shows.
pub proof fn observations_show_their_attempt(
    attempt: MoveAttempt,
    ended_tick: u64,
    completion_sequence: u64,
    outcome: ObservationOutcome,
    evidence: AttributionEvidence,
    o: MoveObservation,
)
    requires
        observation::records(attempt, ended_tick, completion_sequence, outcome, evidence, o),
    ensures
        o.context == attempt.context,
        o.id == attempt.id,
        o.primitive == attempt.primitive,
        o.features == attempt.features,
        o.from[0] == attempt.from.x,
        o.from[1] == attempt.from.y,
        o.from[2] == attempt.from.z,
        o.to[0] == attempt.to.x,
        o.to[1] == attempt.to.y,
        o.to[2] == attempt.to.z,
        o.predicted == attempt.predicted,
        o.predicted_ticks == attempt.predicted_ticks,
        o.outcome == outcome,
        o.completion_sequence == completion_sequence,
        ended_tick >= attempt.began_tick ==> o.ticks_taken() == ended_tick - attempt.began_tick,
{
    assert(o.from@[0] == attempt.from.x);
    assert(o.from@[1] == attempt.from.y);
    assert(o.from@[2] == attempt.from.z);
    assert(o.to@[0] == attempt.to.x);
    assert(o.to@[1] == attempt.to.y);
    assert(o.to@[2] == attempt.to.z);
}

} // verus!
