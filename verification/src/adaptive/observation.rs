//! Exactly-once observations of executed primitives.
use vstd::prelude::*;

use crate::adaptive::context::{
    AttributionEvidence, InterruptionReason, ObservationContext, ObservationId,
    ObservationOutcome, ADAPTIVE_SCHEMA_VERSION,
};
use crate::adaptive::features::{CostComponents, MoveFeatures, PrimitiveId};
use crate::adaptive::telemetry::ProfileError;
use crate::pos::BlockPos;

verus! {

pub const MAX_OBSERVED_TICKS: u64 = 20_000;

pub const MAX_OBSERVATION_NONCE: u64 = 0xffff_ffff_ffff_fffd;

/// The successor of a nonce while there is one.
pub fn nonce_successor(current: u64) -> (next: Option<u64>)
    ensures
        next == if current < MAX_OBSERVATION_NONCE {
            Some((current + 1) as u64)
        } else {
            None
        },
{
    if current < MAX_OBSERVATION_NONCE {
        Some(current + 1)
    } else {
        None
    }
}

/// Hands out anti-replay nonces in increasing order.
pub struct NonceAllocator {
    current: u64,
}

impl NonceAllocator {
    /// The next nonce.
    pub closed spec fn upcoming(self) -> u64 {
        self.current
    }

    /// An allocator seeded by the time in milliseconds and the process.
    pub fn seeded(unix_millis: u64, process: u32) -> (nonces: NonceAllocator)
        ensures
            nonces.upcoming() == {
                let millis = if unix_millis > u64::MAX / 0x1_0000 {
                    u64::MAX / 0x1_0000
                } else {
                    unix_millis
                };
                let seed = millis * 0x1_0000 + process % 0x1_0000;
                if seed == 0 {
                    1
                } else {
                    seed
                }
            },
    {
        let limit: u64 = u64::MAX / 0x1_0000;
        let millis: u64 = if unix_millis > limit {
            limit
        } else {
            unix_millis
        };
        let seed: u64 = millis * 0x1_0000 + (process % 0x1_0000) as u64;
        NonceAllocator {
            current: if seed == 0 {
                1
            } else {
                seed
            },
        }
    }

    /// The next nonce, or zero once the nonce space is exhausted. Zero is
    /// invalid and therefore fails observation creation closed.
    pub fn next_observation_nonce(&mut self) -> (nonce: u64)
        ensures
            if old(self).upcoming() < MAX_OBSERVATION_NONCE {
                nonce == old(self).upcoming() && final(self).upcoming() == old(self).upcoming() + 1
            } else {
                nonce == 0 && final(self).upcoming() == old(self).upcoming()
            },
    {
        match nonce_successor(self.current) {
            Some(next) => {
                let nonce: u64 = self.current;
                self.current = next;
                nonce
            },
            None => 0,
        }
    }

    /// Moves the allocator past every nonce a loaded profile has seen.
    pub fn ensure_after(&mut self, high_water: u64) -> (moved: Result<(), ProfileError>)
        ensures
            match moved {
                Ok(()) => high_water < MAX_OBSERVATION_NONCE && final(self).upcoming() == if old(self).upcoming() > high_water {
                    old(self).upcoming() as int
                } else {
                    high_water + 1
                },
                Err(error) => {
                    &&& high_water >= MAX_OBSERVATION_NONCE
                    &&& error == ProfileError::NonceExhausted
                    &&& final(self).upcoming() == old(self).upcoming()
                },
            },
    {
        if high_water >= MAX_OBSERVATION_NONCE {
            return Err(ProfileError::NonceExhausted);
        }
        if self.current <= high_water {
            self.current = high_water + 1;
        }
        Ok(())
    }
}

/// A begun primitive. This type is intentionally not `Clone`; finishing it
/// consumes it, making duplicate completion impossible in the owning executor.
#[derive(Debug)]
pub struct MoveAttempt {
    pub context: ObservationContext,
    pub id: ObservationId,
    pub primitive: PrimitiveId,
    pub features: MoveFeatures,
    pub from: BlockPos,
    pub to: BlockPos,
    pub predicted: CostComponents,
    pub predicted_ticks: u32,
    pub began_tick: u64,
}

#[derive(Clone, Copy, PartialEq, Eq, Structural, Debug)]
pub enum ObservationError {
    InvalidContext,
    InvalidPrimitive,
    InvalidFeatures,
    InvalidIdentity,
    InvalidPrediction,
    TickOrder,
    InvalidAttribution,
}

/// Whether an identity belongs to a leg and carries a usable nonce.
pub open spec fn identifies(id: ObservationId, context: ObservationContext) -> bool {
    &&& id.journey_id == context.journey_id
    &&& id.generation == context.generation
    &&& id.leg == context.leg
    &&& 0 < id.nonce < MAX_OBSERVATION_NONCE
}

/// Whether the evidence explains the outcome.
pub open spec fn explains(outcome: ObservationOutcome, evidence: AttributionEvidence) -> bool {
    match outcome {
        ObservationOutcome::Success => evidence is ReachedPlannedNode,
        ObservationOutcome::Stalled => evidence is StallDetector,
        ObservationOutcome::Unsafe => evidence is LiveValidationFailure,
        ObservationOutcome::FellOff => evidence is FellBelowPath,
        ObservationOutcome::TimedOut => evidence is CumulativeDeadline,
        ObservationOutcome::Interrupted(reason) => if reason is Pause || reason is Cancelled
            || reason is GoalChanged {
            evidence is PauseOrCancellation
        } else {
            evidence is ExternalMovementEvent
        },
    }
}

/// The evidence that explains an outcome.
pub open spec fn evidence_of(outcome: ObservationOutcome) -> AttributionEvidence {
    match outcome {
        ObservationOutcome::Success => AttributionEvidence::ReachedPlannedNode,
        ObservationOutcome::Stalled => AttributionEvidence::StallDetector,
        ObservationOutcome::Unsafe => AttributionEvidence::LiveValidationFailure,
        ObservationOutcome::FellOff => AttributionEvidence::FellBelowPath,
        ObservationOutcome::TimedOut => AttributionEvidence::CumulativeDeadline,
        ObservationOutcome::Interrupted(reason) => if reason is Pause || reason is Cancelled
            || reason is GoalChanged {
            AttributionEvidence::PauseOrCancellation
        } else {
            AttributionEvidence::ExternalMovementEvent
        },
    }
}

/// Every outcome is explained by exactly one kind of evidence, and only a
/// success by reaching the planned node.
pub proof fn outcomes_have_one_evidence(outcome: ObservationOutcome)
    ensures
        explains(outcome, evidence_of(outcome)),
        forall|evidence: AttributionEvidence| #[trigger]
            explains(outcome, evidence) ==> evidence == evidence_of(outcome),
        explains(outcome, AttributionEvidence::ReachedPlannedNode) <==> outcome is Success,
{
}

/// Whether evidence explains an outcome.
pub fn attribution_matches(outcome: ObservationOutcome, evidence: AttributionEvidence) -> (r: bool)
    ensures
        r == explains(outcome, evidence),
{
    let expected = match outcome {
        ObservationOutcome::Success => AttributionEvidence::ReachedPlannedNode,
        ObservationOutcome::Stalled => AttributionEvidence::StallDetector,
        ObservationOutcome::Unsafe => AttributionEvidence::LiveValidationFailure,
        ObservationOutcome::FellOff => AttributionEvidence::FellBelowPath,
        ObservationOutcome::TimedOut => AttributionEvidence::CumulativeDeadline,
        ObservationOutcome::Interrupted(
            InterruptionReason::Pause
            | InterruptionReason::Cancelled
            | InterruptionReason::GoalChanged,
        ) => AttributionEvidence::PauseOrCancellation,
        ObservationOutcome::Interrupted(_) => AttributionEvidence::ExternalMovementEvent,
    };
    evidence == expected
}

/// One finished attempt.
#[derive(PartialEq, Eq, Debug)]
pub struct MoveObservation {
    pub schema: u16,
    pub context: ObservationContext,
    pub id: ObservationId,
    pub primitive: PrimitiveId,
    pub features: MoveFeatures,
    pub from: [i32; 3],
    pub to: [i32; 3],
    pub predicted: CostComponents,
    pub predicted_ticks: u32,
    pub began_tick: u64,
    pub ended_tick: u64,
    pub completion_sequence: u64,
    pub outcome: ObservationOutcome,
    pub evidence: AttributionEvidence,
}

impl Clone for MoveObservation {
    fn clone(&self) -> (copy: MoveObservation)
        ensures
            copy == *self,
    {
        MoveObservation {
            schema: self.schema,
            context: self.context.clone(),
            id: self.id,
            primitive: self.primitive,
            features: self.features,
            from: self.from,
            to: self.to,
            predicted: self.predicted,
            predicted_ticks: self.predicted_ticks,
            began_tick: self.began_tick,
            ended_tick: self.ended_tick,
            completion_sequence: self.completion_sequence,
            outcome: self.outcome,
            evidence: self.evidence,
        }
    }
}

/// Whether an attempt took a plausible time: not backwards, not too long, and
/// at least a tick if it succeeded.
pub open spec fn plausible_ticks(
    began_tick: u64,
    ended_tick: u64,
    outcome: ObservationOutcome,
) -> bool {
    &&& began_tick <= ended_tick <= began_tick + MAX_OBSERVED_TICKS
    &&& outcome is Success ==> began_tick < ended_tick
}

impl MoveObservation {
    pub open spec fn valid(self) -> bool {
        &&& self.schema == ADAPTIVE_SCHEMA_VERSION
        &&& self.context.valid()
        &&& identifies(self.id, self.context)
        &&& self.primitive.builtin()
        &&& self.features.valid()
        &&& self.predicted.sum() > 0
        &&& self.predicted_ticks > 0
        &&& plausible_ticks(self.began_tick, self.ended_tick, self.outcome)
        &&& explains(self.outcome, self.evidence)
    }

    pub fn validate(&self) -> (r: bool)
        ensures
            r == self.valid(),
    {
        self.schema == ADAPTIVE_SCHEMA_VERSION && self.context.validate() && self.id.journey_id
            == self.context.journey_id && self.id.generation == self.context.generation
            && self.id.leg == self.context.leg && self.id.nonce != 0 && self.id.nonce
            < MAX_OBSERVATION_NONCE && self.primitive.is_builtin() && self.features.validate()
            && self.predicted.total() > 0 && self.predicted_ticks > 0 && self.ended_tick
            >= self.began_tick && self.ended_tick - self.began_tick <= MAX_OBSERVED_TICKS && (
        self.outcome != ObservationOutcome::Success || self.ended_tick > self.began_tick)
            && attribution_matches(self.outcome, self.evidence)
    }

    /// The ticks the attempt took.
    pub open spec fn ticks_taken(self) -> int {
        if self.ended_tick >= self.began_tick {
            self.ended_tick - self.began_tick
        } else {
            0
        }
    }

    pub fn actual_ticks(&self) -> (ticks: u64)
        ensures
            ticks == self.ticks_taken(),
    {
        self.ended_tick.saturating_sub(self.began_tick)
    }
}

/// Why an attempt cannot begin, if it cannot.
pub open spec fn begin_fault(
    context: ObservationContext,
    id: ObservationId,
    primitive: PrimitiveId,
    features: MoveFeatures,
    predicted: CostComponents,
    predicted_ticks: u32,
) -> Option<ObservationError> {
    if !context.valid() {
        Some(ObservationError::InvalidContext)
    } else if !primitive.builtin() {
        Some(ObservationError::InvalidPrimitive)
    } else if !features.valid() {
        Some(ObservationError::InvalidFeatures)
    } else if !identifies(id, context) {
        Some(ObservationError::InvalidIdentity)
    } else if predicted.sum() == 0 || predicted_ticks == 0 {
        Some(ObservationError::InvalidPrediction)
    } else {
        None
    }
}

/// Whether an observation records the end of an attempt.
pub open spec fn records(
    attempt: MoveAttempt,
    ended_tick: u64,
    completion_sequence: u64,
    outcome: ObservationOutcome,
    evidence: AttributionEvidence,
    observation: MoveObservation,
) -> bool {
    &&& observation.schema == ADAPTIVE_SCHEMA_VERSION
    &&& observation.context == attempt.context
    &&& observation.id == attempt.id
    &&& observation.primitive == attempt.primitive
    &&& observation.features == attempt.features
    &&& observation.from@ == seq![attempt.from.x, attempt.from.y, attempt.from.z]
    &&& observation.to@ == seq![attempt.to.x, attempt.to.y, attempt.to.z]
    &&& observation.predicted == attempt.predicted
    &&& observation.predicted_ticks == attempt.predicted_ticks
    &&& observation.began_tick == attempt.began_tick
    &&& observation.ended_tick == ended_tick
    &&& observation.completion_sequence == completion_sequence
    &&& observation.outcome == outcome
    &&& observation.evidence == evidence
}

impl MoveAttempt {
    /// What [`MoveAttempt::begin`] established.
    pub open spec fn begun(self) -> bool {
        begin_fault(
            self.context,
            self.id,
            self.primitive,
            self.features,
            self.predicted,
            self.predicted_ticks,
        ) is None
    }

    pub fn begin(
        context: ObservationContext,
        id: ObservationId,
        primitive: PrimitiveId,
        features: MoveFeatures,
        from: BlockPos,
        to: BlockPos,
        predicted: CostComponents,
        predicted_ticks: u32,
        began_tick: u64,
    ) -> (attempt: Result<MoveAttempt, ObservationError>)
        ensures
            match begin_fault(context, id, primitive, features, predicted, predicted_ticks) {
                None => attempt == Ok::<MoveAttempt, ObservationError>(
                    MoveAttempt {
                        context,
                        id,
                        primitive,
                        features,
                        from,
                        to,
                        predicted,
                        predicted_ticks,
                        began_tick,
                    },
                ),
                Some(fault) => attempt == Err::<MoveAttempt, ObservationError>(fault),
            },
    {
        if !context.validate() {
            return Err(ObservationError::InvalidContext);
        }
        if !primitive.is_builtin() {
            return Err(ObservationError::InvalidPrimitive);
        }
        if !features.validate() {
            return Err(ObservationError::InvalidFeatures);
        }
        if id.journey_id != context.journey_id || id.generation != context.generation || id.leg
            != context.leg || id.nonce == 0 || id.nonce >= MAX_OBSERVATION_NONCE {
            return Err(ObservationError::InvalidIdentity);
        }
        if predicted.total() == 0 || predicted_ticks == 0 {
            return Err(ObservationError::InvalidPrediction);
        }
        Ok(
            MoveAttempt {
                context,
                id,
                primitive,
                features,
                from,
                to,
                predicted,
                predicted_ticks,
                began_tick,
            },
        )
    }

    pub fn finish(
        self,
        ended_tick: u64,
        completion_sequence: u64,
        outcome: ObservationOutcome,
        evidence: AttributionEvidence,
    ) -> (finished: Result<MoveObservation, ObservationError>)
        ensures
            match finished {
                Ok(observation) => {
                    &&& plausible_ticks(self.began_tick, ended_tick, outcome)
                    &&& explains(outcome, evidence)
                    &&& records(
                        self,
                        ended_tick,
                        completion_sequence,
                        outcome,
                        evidence,
                        observation,
                    )
                    &&& self.begun() ==> observation.valid()
                },
                Err(ObservationError::TickOrder) => !plausible_ticks(
                    self.began_tick,
                    ended_tick,
                    outcome,
                ),
                Err(ObservationError::InvalidAttribution) => plausible_ticks(
                    self.began_tick,
                    ended_tick,
                    outcome,
                ) && !explains(outcome, evidence),
                Err(_) => false,
            },
    {
        if ended_tick < self.began_tick {
            return Err(ObservationError::TickOrder);
        }
        let actual_ticks: u64 = ended_tick - self.began_tick;
        if actual_ticks > MAX_OBSERVED_TICKS || (outcome == ObservationOutcome::Success
            && actual_ticks == 0) {
            return Err(ObservationError::TickOrder);
        }
        if !attribution_matches(outcome, evidence) {
            return Err(ObservationError::InvalidAttribution);
        }
        Ok(
            MoveObservation {
                schema: ADAPTIVE_SCHEMA_VERSION,
                context: self.context,
                id: self.id,
                primitive: self.primitive,
                features: self.features,
                from: [self.from.x, self.from.y, self.from.z],
                to: [self.to.x, self.to.y, self.to.z],
                predicted: self.predicted,
                predicted_ticks: self.predicted_ticks,
                began_tick: self.began_tick,
                ended_tick,
                completion_sequence,
                outcome,
                evidence,
            },
        )
    }
}

} // verus!
