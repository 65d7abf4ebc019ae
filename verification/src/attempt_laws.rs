//! What an observed follower notes of its attempts.
use vstd::prelude::*;

use crate::adaptive::context::{AttributionEvidence, InterruptionReason, ObservationOutcome};
use crate::adaptive::observation;
use crate::adaptive::observation::MoveObservation;
use crate::adaptive_follower;
use crate::adaptive_follower::{LogState, ObservedPathFollower};
use crate::local::follower::{
    FollowerDirective, FollowerFailure, FollowerFrame, FollowerProgress,
};
use crate::local::world::Terrain;

verus! {

/// Progress credits an attempt exactly where the follower advanced by the one
/// node that the attempt was made for; any other advance, and being moved, ends
/// it without credit, and no progress leaves it alone.
pub proof fn only_the_next_node_is_credited(log: LogState, progress: FollowerProgress)
    ensures
        ({
            let end = log.progress_end(progress);
            &&& progress is Unchanged <==> end is None
            &&& end matches Some((outcome, _)) ==> (outcome is Success <==> {
                progress matches FollowerProgress::Advanced { from, to } && to == from + 1 && (
                log.active matches Some(active) && (active.edge_index + 1 == from || (from == 0
                    && active.edge_index == 0)))
            })
            &&& end matches Some((outcome, evidence)) ==> if outcome is Success {
                evidence is ReachedPlannedNode
            } else {
                outcome is Interrupted && evidence is ExternalMovementEvent
            }
        }),
{
}

/// A directive ends an attempt exactly where it ends the leg. Arriving is a
/// success; giving up is noted under its reason; an unsafe way is the world's
/// doing and no failure.
pub proof fn endings_are_noted_under_their_reason(
    directive: FollowerDirective,
    failure: Option<FollowerFailure>,
)
    ensures
        ({
            let end = adaptive_follower::directive_end(directive, failure);
            &&& end is Some <==> directive is Arrived || directive is Stuck || directive is Unsafe
            &&& directive is Arrived ==> end == Some(
                (ObservationOutcome::Success, AttributionEvidence::ReachedPlannedNode),
            )
            &&& directive is Stuck && failure == Some(FollowerFailure::TimedOut) ==> (end matches Some(
                (outcome, _),
            ) && outcome is TimedOut)
            &&& directive is Stuck && failure == Some(FollowerFailure::FellOff) ==> (end matches Some(
                (outcome, _),
            ) && outcome is FellOff)
            &&& directive is Stuck && failure == Some(FollowerFailure::Stalled) ==> (end matches Some(
                (outcome, _),
            ) && outcome is Stalled)
            &&& directive is Stuck && failure is None ==> (end matches Some((outcome, _))
                && outcome is Interrupted)
            &&& directive is Unsafe ==> (end matches Some((outcome, _)) && outcome is Interrupted)
            &&& end matches Some((outcome, evidence)) ==> observation::explains(outcome, evidence)
        }),
{
}

/// An attempt that ends leaves one observation of itself, if its time is
/// plausible and its outcome explained, and none otherwise; nothing but its end
/// is noted. Without an attempt nothing changes.
pub proof fn attempts_are_noted_as_they_were(
    log: LogState,
    outcome: ObservationOutcome,
    evidence: AttributionEvidence,
    after: LogState,
)
    requires
        log.finishes(outcome, evidence, after),
        log.completion_sequence < u64::MAX,
    ensures
        after.active is None,
        after.steps == log.steps,
        after.attempts == log.attempts,
        after.active_ticks == log.active_ticks,
        after.terminal == log.terminal,
        log.active is None ==> after.observations == log.observations,
        log.active matches Some(active) ==> {
            let plausible = active.attempt.began_tick <= log.active_ticks && log.active_ticks
                - active.attempt.began_tick <= observation::MAX_OBSERVED_TICKS && (
            outcome is Success ==> active.attempt.began_tick < log.active_ticks);
            &&& after.completion_sequence == log.completion_sequence + 1
            &&& !plausible ==> after.observations == log.observations
            &&& plausible && observation::explains(outcome, evidence) ==> {
                &&& after.observations.len() == log.observations.len() + 1
                &&& forall|i: int|
                    0 <= i < log.observations.len() ==> after.observations[i]
                        == #[trigger] log.observations[i]
                &&& ({
                    let noted = after.observations.last();
                    &&& noted.outcome == outcome && noted.evidence == evidence
                    &&& noted.id == active.attempt.id && noted.context == active.attempt.context
                    &&& noted.primitive == active.attempt.primitive
                    &&& noted.features == active.attempt.features
                    &&& noted.predicted == active.attempt.predicted
                    &&& noted.predicted_ticks == active.attempt.predicted_ticks
                    &&& noted.began_tick == active.attempt.began_tick
                    &&& noted.ended_tick == log.active_ticks
                    &&& noted.completion_sequence == log.completion_sequence + 1
                })
            }
        },
{
    if log.active is Some {
        if after.observations.len() == log.observations.len() + 1 {
            assert forall|i: int| 0 <= i < log.observations.len() implies after.observations[i]
                == #[trigger] log.observations[i] by {
                assert(after.observations.drop_last()[i] == after.observations[i]);
            }
        }
    }
}

/// An attempt begins only where none is under way, observations are wanted, and
/// there is a step to the node. It is an attempt at that very step, it begins
/// now, and it is the next one at it; the number it takes is used up.
pub proof fn attempts_begin_at_the_next_step(log: LogState, node: usize, nonce: u64)
    requires
        log.wf(),
        nonce < observation::MAX_OBSERVATION_NONCE,
    ensures
        ({
            let (after, next) = log.begins(node, nonce);
            let started = log.active is None && after.active is Some;
            let edge = node - 1;
            &&& started ==> {
                &&& log.observations_enabled
                &&& 1 <= node <= log.steps.len()
                &&& next == nonce + 1
                &&& after.attempts[edge] == log.attempts[edge] + 1
                &&& ({
                    let attempt = after.active->0.attempt;
                    let step = log.steps[edge];
                    &&& after.active->0.edge_index == edge
                    &&& attempt.id.nonce == nonce
                    &&& attempt.id.attempt == log.attempts[edge]
                    &&& attempt.id.edge_index == step.edge_index
                    &&& attempt.id.journey_id == log.context.journey_id
                    &&& attempt.id.generation == log.context.generation
                    &&& attempt.id.leg == log.context.leg
                    &&& attempt.context == log.context
                    &&& attempt.primitive == step.primitive && attempt.features == step.features
                    &&& attempt.from == step.from && attempt.to == step.to
                    &&& attempt.predicted == step.predicted
                    &&& attempt.predicted_ticks == step.predicted_ticks
                    &&& attempt.began_tick == log.active_ticks
                })
            }
            &&& log.active is Some ==> after == log && next == nonce
            &&& !log.observations_enabled ==> after == log && next == nonce
            &&& node == 0 || node > log.steps.len() ==> after == log && next == nonce
            &&& after.observations == log.observations
            &&& after.completion_sequence == log.completion_sequence
            &&& after.active_ticks == log.active_ticks
        }),
{
}

/// A follower whose leg has ended says so again and does nothing else. One that
/// has not counts a tick, unless it is paused, and keeps the directive that ends
/// the leg.
pub proof fn ended_legs_stay_ended(
    start: ObservedPathFollower,
    nonce: u64,
    terrain: Terrain,
    frame: &FollowerFrame,
    directive: FollowerDirective,
    end: ObservedPathFollower,
    next_nonce: u64,
)
    requires
        start.wf(),
        adaptive_follower::ticks(start, nonce, terrain, frame, directive, end, next_nonce),
    ensures
        start.log@.terminal matches Some(latched) ==> directive == latched && end == start
            && next_nonce == nonce,
        start.log@.terminal is None && (directive is Arrived || directive is Stuck || directive
            is Unsafe) ==> end.log@.terminal == Some(directive),
        start.log@.terminal is None && !frame.paused && start.log@.active_ticks < u64::MAX
            ==> end.log@.active_ticks == start.log@.active_ticks + 1,
        start.log@.terminal is None && frame.paused ==> end.log@.active_ticks
            == start.log@.active_ticks,
        end.log@.observations.len() <= start.log@.observations.len() + 2,
{
}

/// An interruption ends the leg and the attempt under way. The attempt leaves
/// one observation, under the reason of the interruption, and evidence that
/// tells whether the player or the world stood behind it. A leg that has ended
/// is not interrupted again.
pub proof fn interruptions_end_the_leg(
    start: ObservedPathFollower,
    reason: InterruptionReason,
    end: ObservedPathFollower,
)
    requires
        adaptive_follower::interrupts(start, reason, end),
        start.log@.completion_sequence < u64::MAX,
    ensures
        end.follower == start.follower,
        end.log@.terminal is Some,
        start.log@.terminal is Some ==> end.log@ == start.log@,
        start.log@.terminal is None ==> end.log@.active is None,
        end.log@.observations_enabled == start.log@.observations_enabled,
        start.log@.terminal is None ==> (start.log@.active matches Some(active) ==> (
        active.attempt.began_tick <= start.log@.active_ticks <= active.attempt.began_tick
            + observation::MAX_OBSERVED_TICKS ==> {
            &&& end.log@.observations.len() == start.log@.observations.len() + 1
            &&& end.log@.observations.last().outcome == ObservationOutcome::Interrupted(reason)
            &&& end.log@.observations.last().id == active.attempt.id
            &&& end.log@.observations.last().evidence is PauseOrCancellation <==> reason is Pause
                || reason is Cancelled || reason is GoalChanged
        })),
        start.log@.active is None ==> end.log@.observations == start.log@.observations,
{
}

/// A follower that is muted makes no observation any more: the attempt under way
/// ends under the reason, and no other begins, while the body goes on as it was.
pub proof fn muted_followers_observe_nothing(
    start: ObservedPathFollower,
    reason: InterruptionReason,
    end: ObservedPathFollower,
    node: usize,
    nonce: u64,
)
    requires
        start.wf(),
        adaptive_follower::mutes(start, reason, end),
        start.log@.completion_sequence < u64::MAX,
    ensures
        end.follower == start.follower,
        !end.log@.observations_enabled,
        end.log@.active is None,
        end.log@.terminal == start.log@.terminal,
        end.log@.begins(node, nonce) == (end.log@, nonce as int),
        start.log@.active is None ==> end.log@.observations == start.log@.observations,
        start.log@.active matches Some(active) ==> (active.attempt.began_tick
            <= start.log@.active_ticks <= active.attempt.began_tick
            + observation::MAX_OBSERVED_TICKS ==> end.log@.observations.len()
            == start.log@.observations.len() + 1 && end.log@.observations.last().outcome
            == ObservationOutcome::Interrupted(reason)),
{
}

/// Observations are handed out once, all of them, and nothing else changes.
pub proof fn observations_are_handed_out_once(
    start: ObservedPathFollower,
    taken: Seq<MoveObservation>,
    end: ObservedPathFollower,
    more: Seq<MoveObservation>,
    last: ObservedPathFollower,
)
    requires
        adaptive_follower::drains(start, taken, end),
        adaptive_follower::drains(end, more, last),
    ensures
        taken == start.log@.observations,
        more.len() == 0,
        end.follower == start.follower,
        end.log@.active == start.log@.active,
        end.log@.attempts == start.log@.attempts,
        end.log@.active_ticks == start.log@.active_ticks,
        end.log@.completion_sequence == start.log@.completion_sequence,
        end.log@.terminal == start.log@.terminal,
        end.log@.observations_enabled == start.log@.observations_enabled,
{
}

} // verus!
