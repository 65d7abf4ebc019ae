//! Exactly-once observation lifecycle around the compatibility path follower.
use vstd::prelude::*;

use crate::adaptive::context::{
    AttributionEvidence, InterruptionReason, ObservationContext, ObservationId,
    ObservationOutcome,
};
use crate::adaptive::observation;
use crate::adaptive::observation::{
    MoveAttempt, MoveObservation, NonceAllocator, MAX_OBSERVATION_NONCE,
};
use crate::local::follower;
use crate::local::follower::{
    FollowerDirective, FollowerFailure, FollowerFrame, FollowerProgress, PathFollower,
};
use crate::local::settings::FollowerSettings;
use crate::local::world::{Terrain, WorldView};
use crate::planning;
use crate::planning::{MotionPlan, MotionStep};
use crate::types::Path;

verus! {

pub struct ActiveAttempt {
    pub edge_index: usize,
    pub attempt: MoveAttempt,
}

/// The books an observed follower keeps.
pub struct AttemptLog {
    pub steps: Vec<MotionStep>,
    pub context: ObservationContext,
    pub active: Option<ActiveAttempt>,
    pub attempts: Vec<u16>,
    pub observations: Vec<MoveObservation>,
    pub active_ticks: u64,
    pub completion_sequence: u64,
    pub terminal: Option<FollowerDirective>,
    pub observations_enabled: bool,
}

/// The content of an [`AttemptLog`].
#[verifier::ext_equal]
pub struct LogState {
    pub steps: Seq<MotionStep>,
    pub context: ObservationContext,
    pub active: Option<ActiveAttempt>,
    pub attempts: Seq<u16>,
    pub observations: Seq<MoveObservation>,
    pub active_ticks: u64,
    pub completion_sequence: u64,
    pub terminal: Option<FollowerDirective>,
    pub observations_enabled: bool,
}

impl View for AttemptLog {
    type V = LogState;

    open spec fn view(&self) -> LogState {
        LogState {
            steps: self.steps@,
            context: self.context,
            active: self.active,
            attempts: self.attempts@,
            observations: self.observations@,
            active_ticks: self.active_ticks,
            completion_sequence: self.completion_sequence,
            terminal: self.terminal,
            observations_enabled: self.observations_enabled,
        }
    }
}

/// The evidence that explains an interruption.
pub open spec fn evidence_for(reason: InterruptionReason) -> AttributionEvidence {
    if reason is Pause || reason is Cancelled || reason is GoalChanged {
        AttributionEvidence::PauseOrCancellation
    } else {
        AttributionEvidence::ExternalMovementEvent
    }
}

pub fn interruption_evidence(reason: InterruptionReason) -> (evidence: AttributionEvidence)
    ensures
        evidence == evidence_for(reason),
        observation::explains(ObservationOutcome::Interrupted(reason), evidence),
{
    match reason {
        InterruptionReason::Pause
        | InterruptionReason::Cancelled
        | InterruptionReason::GoalChanged => AttributionEvidence::PauseOrCancellation,
        _ => AttributionEvidence::ExternalMovementEvent,
    }
}

impl LogState {
    pub open spec fn wf(self) -> bool {
        &&& self.attempts.len() == self.steps.len()
        &&& !self.observations_enabled ==> self.active is None
    }

    /// The log once its active attempt, if there is one, has ended: it leaves
    /// at most one observation, and none if its ending is implausible.
    pub open spec fn finishes(
        self,
        outcome: ObservationOutcome,
        evidence: AttributionEvidence,
        after: LogState,
    ) -> bool {
        match self.active {
            None => after == self,
            Some(active) => if self.completion_sequence == u64::MAX {
                after == (LogState {
                    active: None,
                    terminal: Some(FollowerDirective::Paused),
                    ..self
                })
            } else {
                let sequence = (self.completion_sequence + 1) as u64;
                if observation::plausible_ticks(
                    active.attempt.began_tick,
                    self.active_ticks,
                    outcome,
                ) && observation::explains(outcome, evidence) {
                    &&& after.observations.len() == self.observations.len() + 1
                    &&& after.observations.drop_last() == self.observations
                    &&& observation::records(
                        active.attempt,
                        self.active_ticks,
                        sequence,
                        outcome,
                        evidence,
                        after.observations.last(),
                    )
                    &&& after == (LogState {
                        active: None,
                        completion_sequence: sequence,
                        observations: after.observations,
                        ..self
                    })
                } else {
                    after == (LogState { active: None, completion_sequence: sequence, ..self })
                }
            },
        }
    }

    /// The identity of the next attempt at an edge.
    pub open spec fn next_id(self, edge: int, nonce: u64) -> ObservationId {
        ObservationId {
            nonce,
            journey_id: self.context.journey_id,
            generation: self.context.generation,
            leg: self.context.leg,
            edge_index: self.steps[edge].edge_index,
            attempt: self.attempts[edge],
        }
    }

    /// The next attempt at an edge.
    pub open spec fn next_attempt(self, edge: int, nonce: u64) -> MoveAttempt {
        let step = self.steps[edge];
        MoveAttempt {
            context: self.context,
            id: self.next_id(edge, nonce),
            primitive: step.primitive,
            features: step.features,
            from: step.from,
            to: step.to,
            predicted: step.predicted,
            predicted_ticks: step.predicted_ticks,
            began_tick: self.active_ticks,
        }
    }

    /// The log and the next nonce once an attempt at reaching `node` may have
    /// begun. An attempt already under way goes on.
    pub open spec fn begins(self, node: usize, nonce: u64) -> (LogState, int) {
        let edge = node - 1;
        if !self.observations_enabled || self.active is Some || node == 0 || edge
            >= self.steps.len() {
            (self, nonce as int)
        } else if self.attempts[edge] == u16::MAX {
            (LogState { terminal: Some(FollowerDirective::Paused), ..self }, nonce as int)
        } else {
            let (given, next) = if nonce < MAX_OBSERVATION_NONCE {
                (nonce, nonce + 1)
            } else {
                (0u64, nonce as int)
            };
            let attempt = self.next_attempt(edge, given);
            if attempt.begun() {
                (
                    LogState {
                        attempts: self.attempts.update(
                            edge,
                            (self.attempts[edge] + 1) as u16,
                        ),
                        active: Some(ActiveAttempt { edge_index: edge as usize, attempt }),
                        ..self
                    },
                    next,
                )
            } else {
                (self, next)
            }
        }
    }

    /// How progress ends the active attempt: reaching exactly the planned node
    /// is a success, and skipping or being moved credits nothing.
    pub open spec fn progress_end(self, progress: FollowerProgress) -> Option<
        (ObservationOutcome, AttributionEvidence),
    > {
        match progress {
            FollowerProgress::Unchanged => None,
            FollowerProgress::Advanced { from, to } => if to == from + 1 && (
            self.active matches Some(active) && active.edge_index == if from == 0 {
                0
            } else {
                from - 1
            }) {
                Some((ObservationOutcome::Success, AttributionEvidence::ReachedPlannedNode))
            } else {
                Some(
                    (
                        ObservationOutcome::Interrupted(InterruptionReason::Unknown),
                        AttributionEvidence::ExternalMovementEvent,
                    ),
                )
            },
            FollowerProgress::Reanchored => Some(
                (
                    ObservationOutcome::Interrupted(InterruptionReason::ExternalImpulse),
                    AttributionEvidence::ExternalMovementEvent,
                ),
            ),
        }
    }

    /// The log after a tick's progress.
    pub open spec fn progresses(self, progress: FollowerProgress, after: LogState) -> bool {
        match self.progress_end(progress) {
            None => after == self,
            Some((outcome, evidence)) => self.finishes(outcome, evidence, after),
        }
    }

    /// The log after a tick's directive: one that ends the leg ends the
    /// active attempt and is latched.
    pub open spec fn concludes(
        self,
        directive: FollowerDirective,
        failure: Option<FollowerFailure>,
        after: LogState,
    ) -> bool {
        match directive_end(directive, failure) {
            None => after == self,
            Some((outcome, evidence)) => exists|finished: LogState| #[trigger]
                self.finishes(outcome, evidence, finished) && after == (LogState {
                    terminal: Some(directive),
                    ..finished
                }),
        }
    }
}

/// How a directive ends the active attempt, if it does.
pub open spec fn directive_end(
    directive: FollowerDirective,
    failure: Option<FollowerFailure>,
) -> Option<(ObservationOutcome, AttributionEvidence)> {
    match directive {
        FollowerDirective::Arrived => Some(
            (ObservationOutcome::Success, AttributionEvidence::ReachedPlannedNode),
        ),
        FollowerDirective::Stuck { .. } => Some(
            match failure {
                Some(FollowerFailure::TimedOut) => (
                    ObservationOutcome::TimedOut,
                    AttributionEvidence::CumulativeDeadline,
                ),
                Some(FollowerFailure::FellOff) => (
                    ObservationOutcome::FellOff,
                    AttributionEvidence::FellBelowPath,
                ),
                Some(FollowerFailure::Stalled) => (
                    ObservationOutcome::Stalled,
                    AttributionEvidence::StallDetector,
                ),
                None => (
                    ObservationOutcome::Interrupted(InterruptionReason::Unknown),
                    AttributionEvidence::ExternalMovementEvent,
                ),
            },
        ),
        FollowerDirective::Unsafe { .. } => Some(
            (
                ObservationOutcome::Interrupted(InterruptionReason::WorldChanged),
                AttributionEvidence::ExternalMovementEvent,
            ),
        ),
        _ => None,
    }
}

/// An attempt ends once: ending it again changes nothing.
pub proof fn attempts_end_once(
    log: LogState,
    outcome: ObservationOutcome,
    evidence: AttributionEvidence,
    again: ObservationOutcome,
    more: AttributionEvidence,
    after: LogState,
    later: LogState,
)
    requires
        log.finishes(outcome, evidence, after),
        after.finishes(again, more, later),
    ensures
        later == after,
        after.observations.len() <= log.observations.len() + 1,
{
}

/// Reaching more than the next node credits no primitive with a success.
pub proof fn skipped_nodes_are_not_credited(log: LogState, from: usize, to: usize)
    requires
        to != from + 1,
    ensures
        log.progress_end(FollowerProgress::Advanced { from, to }) == Some(
            (
                ObservationOutcome::Interrupted(InterruptionReason::Unknown),
                AttributionEvidence::ExternalMovementEvent,
            ),
        ),
{
}

impl AttemptLog {
    fn finish_active(&mut self, outcome: ObservationOutcome, evidence: AttributionEvidence)
        ensures
            old(self)@.finishes(outcome, evidence, final(self)@),
    {
        let mut taken: Option<ActiveAttempt> = None;
        std::mem::swap(&mut taken, &mut self.active);
        match taken {
            None => {},
            Some(active) => {
                if self.completion_sequence == u64::MAX {
                    self.terminal = Some(FollowerDirective::Paused);
                    return;
                }
                self.completion_sequence = self.completion_sequence + 1;
                let ghost seen = self.observations@;
                if let Ok(observation) = active.attempt.finish(
                    self.active_ticks,
                    self.completion_sequence,
                    outcome,
                    evidence,
                ) {
                    self.observations.push(observation);
                    assert(self.observations@.drop_last() =~= seen);
                }
            },
        }
    }

    fn begin_attempt(&mut self, node: usize, nonces: &mut NonceAllocator)
        requires
            old(self)@.wf(),
        ensures
            final(self)@.wf(),
            final(self)@ == old(self)@.begins(node, old(nonces).upcoming()).0,
            final(nonces).upcoming() == old(self)@.begins(node, old(nonces).upcoming()).1,
    {
        if !self.observations_enabled || self.active.is_some() || node == 0 || node - 1
            >= self.steps.len() {
            return;
        }
        let edge: usize = node - 1;
        let number: u16 = self.attempts[edge];
        if number == u16::MAX {
            self.terminal = Some(FollowerDirective::Paused);
            return;
        }
        let step = self.steps[edge];
        let id = ObservationId {
            nonce: nonces.next_observation_nonce(),
            journey_id: self.context.journey_id,
            generation: self.context.generation,
            leg: self.context.leg,
            edge_index: step.edge_index,
            attempt: number,
        };
        if let Ok(attempt) = MoveAttempt::begin(
            self.context.clone(),
            id,
            step.primitive,
            step.features,
            step.from,
            step.to,
            step.predicted,
            step.predicted_ticks,
            self.active_ticks,
        ) {
            self.attempts.set(edge, number + 1);
            self.active = Some(ActiveAttempt { edge_index: edge, attempt });
        }
    }

    fn note_progress(&mut self, progress: FollowerProgress)
        ensures
            old(self)@.progresses(progress, final(self)@),
    {
        match progress {
            FollowerProgress::Unchanged => {},
            FollowerProgress::Advanced { from, to } => {
                let expected_edge: usize = from.saturating_sub(1);
                let planned: bool = match &self.active {
                    Some(active) => active.edge_index == expected_edge,
                    None => false,
                };
                if from < usize::MAX && to == from + 1 && planned {
                    self.finish_active(
                        ObservationOutcome::Success,
                        AttributionEvidence::ReachedPlannedNode,
                    );
                } else {
                    self.finish_active(
                        ObservationOutcome::Interrupted(InterruptionReason::Unknown),
                        AttributionEvidence::ExternalMovementEvent,
                    );
                }
            },
            FollowerProgress::Reanchored => {
                self.finish_active(
                    ObservationOutcome::Interrupted(InterruptionReason::ExternalImpulse),
                    AttributionEvidence::ExternalMovementEvent,
                );
            },
        }
    }

    fn note_directive(&mut self, directive: FollowerDirective, failure: Option<FollowerFailure>)
        ensures
            old(self)@.concludes(directive, failure, final(self)@),
    {
        let (outcome, evidence) = match directive {
            FollowerDirective::Arrived => (
                ObservationOutcome::Success,
                AttributionEvidence::ReachedPlannedNode,
            ),
            FollowerDirective::Stuck { .. } => match failure {
                Some(FollowerFailure::TimedOut) => (
                    ObservationOutcome::TimedOut,
                    AttributionEvidence::CumulativeDeadline,
                ),
                Some(FollowerFailure::FellOff) => (
                    ObservationOutcome::FellOff,
                    AttributionEvidence::FellBelowPath,
                ),
                Some(FollowerFailure::Stalled) => (
                    ObservationOutcome::Stalled,
                    AttributionEvidence::StallDetector,
                ),
                None => (
                    ObservationOutcome::Interrupted(InterruptionReason::Unknown),
                    AttributionEvidence::ExternalMovementEvent,
                ),
            },
            FollowerDirective::Unsafe { .. } => (
                ObservationOutcome::Interrupted(InterruptionReason::WorldChanged),
                AttributionEvidence::ExternalMovementEvent,
            ),
            _ => {
                return;
            },
        };
        self.finish_active(outcome, evidence);
        assert(old(self)@.finishes(outcome, evidence, self@));
        self.terminal = Some(directive);
    }
}

/// A log before anything was attempted.
pub open spec fn opened(steps: Seq<MotionStep>, context: ObservationContext) -> LogState {
    LogState {
        steps,
        context,
        active: None,
        attempts: Seq::new(steps.len(), |i: int| 0u16),
        observations: Seq::empty(),
        active_ticks: 0,
        completion_sequence: 0,
        terminal: None,
        observations_enabled: true,
    }
}

/// A [`PathFollower`] that emits structured observations without changing its
/// steering API. Pauses retain the active attempt and do not consume its clock;
/// cancellation, correction, re-anchor, unsafe validation and stalls each
/// produce one explicit terminal observation.
pub struct ObservedPathFollower {
    pub follower: PathFollower,
    pub log: AttemptLog,
}

impl ObservedPathFollower {
    pub open spec fn wf(self) -> bool {
        &&& self.follower.wf()
        &&& self.follower.progress is Unchanged
        &&& self.follower.failure is None
        &&& self.log@.wf()
    }

    pub fn new(
        plan: MotionPlan,
        settings: FollowerSettings,
        seed: u64,
        context: ObservationContext,
    ) -> (observed: ObservedPathFollower)
        ensures
            observed.wf(),
            observed.follower == follower::begun(plan.route(), unsmoothed(settings), seed),
            observed.log@ == opened(plan.motion(), context),
    {
        let (path, steps) = plan.into_parts();
        let mut attempts: Vec<u16> = Vec::new();
        let mut i: usize = 0;
        while i < steps.len()
            invariant
                i <= steps@.len(),
                attempts@ == Seq::new(i as nat, |k: int| 0u16),
            decreases steps@.len() - i,
        {
            attempts.push(0);
            i += 1;
            assert(attempts@ =~= Seq::new(i as nat, |k: int| 0u16));
        }
        ObservedPathFollower {
            follower: PathFollower::new(path, observed_follower_settings(settings), seed),
            log: AttemptLog {
                steps,
                context,
                active: None,
                attempts,
                observations: Vec::new(),
                active_ticks: 0,
                completion_sequence: 0,
                terminal: None,
                observations_enabled: true,
            },
        }
    }

    pub fn path(&self) -> (path: &Path)
        ensures
            *path == self.follower.path,
    {
        self.follower.path()
    }

    pub fn current_node_index(&self) -> (idx: usize)
        ensures
            idx == self.follower.idx,
    {
        self.follower.current_node_index()
    }

    pub fn model_revision(&self) -> (revision: u64)
        ensures
            revision == self.log@.context.model_revision,
    {
        self.log.context.model_revision
    }

    /// Decides one tick and keeps the books on it. Once a terminal directive is
    /// latched it is repeated and nothing changes.
    pub fn tick<W: WorldView + ?Sized>(
        &mut self,
        world: &W,
        frame: &FollowerFrame,
        nonces: &mut NonceAllocator,
    ) -> (directive: FollowerDirective)
        requires
            old(self).wf(),
        ensures
            final(self).wf(),
            final(self).follower.path == old(self).follower.path,
            ticks(
                *old(self),
                old(nonces).upcoming(),
                world.terrain(),
                frame,
                directive,
                *final(self),
                final(nonces).upcoming(),
            ),
    {
        if let Some(terminal) = self.log.terminal {
            return terminal;
        }
        let ghost start = *self;
        let ghost nonce = nonces.upcoming();
        if !frame.paused {
            self.log.begin_attempt(self.follower.current_node_index(), nonces);
            self.log.active_ticks = self.log.active_ticks.saturating_add(1);
        }
        let ghost before = self.log@;
        let directive = self.follower.tick(world, frame);
        let ghost walked = self.follower;
        let progress = self.follower.take_progress();
        let failure = self.follower.take_failure();
        self.log.note_progress(progress);
        let ghost between = self.log@;
        self.log.note_directive(directive, failure);
        proof {
            assert(ticks_through(
                start,
                nonce,
                frame,
                before,
                walked,
                between,
                directive,
                *self,
                nonces.upcoming(),
            ));
        }
        directive
    }

    /// Explicitly terminates an active attempt when its owning navigation is
    /// replaced, cancelled, invalidated or externally corrected.
    pub fn interrupt(&mut self, reason: InterruptionReason)
        requires
            old(self).wf(),
        ensures
            final(self).wf(),
            interrupts(*old(self), reason, *final(self)),
    {
        if self.log.terminal.is_some() {
            return;
        }
        self.log.finish_active(
            ObservationOutcome::Interrupted(reason),
            interruption_evidence(reason),
        );
        assert(old(self).log@.finishes(
            ObservationOutcome::Interrupted(reason),
            evidence_for(reason),
            self.log@,
        ));
        // An interrupt transfers ownership away from this executor. Latch a
        // non-moving terminal directive so an accidentally retained wrapper
        // cannot start a fresh attempt if ticked again.
        self.log.terminal = Some(FollowerDirective::Paused);
    }

    /// Permanently suppresses telemetry for the rest of this leg after an
    /// unmodelled execution condition (for example, hunger preventing a
    /// requested sprint). Steering continues normally, but a partial edge is
    /// never resumed and misattributed after the condition clears.
    pub fn disable_observations(&mut self, reason: InterruptionReason)
        requires
            old(self).wf(),
        ensures
            final(self).wf(),
            mutes(*old(self), reason, *final(self)),
    {
        if !self.log.observations_enabled {
            return;
        }
        self.log.finish_active(
            ObservationOutcome::Interrupted(reason),
            interruption_evidence(reason),
        );
        assert(old(self).log@.finishes(
            ObservationOutcome::Interrupted(reason),
            evidence_for(reason),
            self.log@,
        ));
        self.log.observations_enabled = false;
    }

    /// Takes every observation made so far, oldest first.
    pub fn drain_observations(&mut self) -> (observations: Vec<MoveObservation>)
        requires
            old(self).wf(),
        ensures
            final(self).wf(),
            drains(*old(self), observations@, *final(self)),
    {
        let mut observations: Vec<MoveObservation> = Vec::new();
        std::mem::swap(&mut observations, &mut self.log.observations);
        observations
    }
}

/// One tick: a latched directive is repeated and nothing changes; otherwise the
/// follower walks and the books are kept.
pub open spec fn ticks(
    start: ObservedPathFollower,
    nonce: u64,
    terrain: Terrain,
    frame: &FollowerFrame,
    directive: FollowerDirective,
    end: ObservedPathFollower,
    next_nonce: u64,
) -> bool {
    match start.log@.terminal {
        Some(terminal) => directive == terminal && end == start && next_nonce == nonce,
        None => exists|before: LogState, walked: PathFollower, between: LogState| #[trigger]
            ticks_through(
                start,
                nonce,
                frame,
                before,
                walked,
                between,
                directive,
                end,
                next_nonce,
            ) && start.follower.ticked(terrain, frame, walked, directive),
    }
}

/// An interruption ends the active attempt and latches a directive that does
/// not move. A latched follower stays as it is.
pub open spec fn interrupts(
    start: ObservedPathFollower,
    reason: InterruptionReason,
    end: ObservedPathFollower,
) -> bool {
    &&& end.follower == start.follower
    &&& match start.log@.terminal {
        Some(_) => end.log@ == start.log@,
        None => exists|finished: LogState| #[trigger]
            start.log@.finishes(
                ObservationOutcome::Interrupted(reason),
                evidence_for(reason),
                finished,
            ) && end.log@ == (LogState { terminal: Some(FollowerDirective::Paused), ..finished }),
    }
}

/// Suppressing telemetry ends the active attempt, once.
pub open spec fn mutes(
    start: ObservedPathFollower,
    reason: InterruptionReason,
    end: ObservedPathFollower,
) -> bool {
    &&& end.follower == start.follower
    &&& if !start.log@.observations_enabled {
        end.log@ == start.log@
    } else {
        exists|finished: LogState| #[trigger]
            start.log@.finishes(
                ObservationOutcome::Interrupted(reason),
                evidence_for(reason),
                finished,
            ) && end.log@ == (LogState { observations_enabled: false, ..finished })
    }
}

/// Taking the observations leaves none behind and nothing else changed.
pub open spec fn drains(
    start: ObservedPathFollower,
    taken: Seq<MoveObservation>,
    end: ObservedPathFollower,
) -> bool {
    &&& end.follower == start.follower
    &&& taken == start.log@.observations
    &&& end.log@ == (LogState { observations: Seq::empty(), ..start.log@ })
}

/// The bookkeeping of one tick: an attempt may begin and its clock runs unless
/// paused, the follower walks, and what it reports is noted.
pub open spec fn ticks_through(
    start: ObservedPathFollower,
    nonce: u64,
    frame: &FollowerFrame,
    before: LogState,
    walked: PathFollower,
    between: LogState,
    directive: FollowerDirective,
    end: ObservedPathFollower,
    next_nonce: u64,
) -> bool {
    &&& if frame.paused {
        before == start.log@ && next_nonce == nonce
    } else {
        let (begun, next) = start.log@.begins(start.follower.idx, nonce);
        &&& before == (LogState {
            active_ticks: if begun.active_ticks == u64::MAX {
                u64::MAX
            } else {
                (begun.active_ticks + 1) as u64
            },
            ..begun
        })
        &&& next_nonce == next
    }
    &&& before.progresses(walked.progress, between)
    &&& between.concludes(directive, walked.failure, end.log@)
    &&& end.follower == (PathFollower {
        progress: FollowerProgress::Unchanged,
        failure: None,
        ..walked
    })
}

/// Pauses cost no time: a paused tick leaves the books and the nonces as they
/// were.
pub proof fn pauses_cost_no_time(
    start: ObservedPathFollower,
    nonce: u64,
    terrain: Terrain,
    frame: &FollowerFrame,
    directive: FollowerDirective,
    end: ObservedPathFollower,
    next_nonce: u64,
)
    requires
        start.wf(),
        start.follower.path.nodes@.len() >= 2,
        frame.paused,
        ticks(start, nonce, terrain, frame, directive, end, next_nonce),
    ensures
        end.log@ == start.log@,
        end.follower.idx == start.follower.idx,
        end.follower.total_ticks == start.follower.total_ticks,
        next_nonce == nonce,
{
}

/// Suppressed telemetry stays suppressed: whatever a later tick meets, it
/// observes nothing.
pub proof fn muted_legs_stay_silent(
    start: ObservedPathFollower,
    nonce: u64,
    terrain: Terrain,
    frame: &FollowerFrame,
    directive: FollowerDirective,
    end: ObservedPathFollower,
    next_nonce: u64,
)
    requires
        start.wf(),
        !start.log@.observations_enabled,
        ticks(start, nonce, terrain, frame, directive, end, next_nonce),
    ensures
        !end.log@.observations_enabled,
        end.log@.active is None,
        end.log@.observations == start.log@.observations,
        next_nonce == nonce,
{
}

/// Every interruption is explained by the evidence kept for it.
pub proof fn interruptions_are_explained(reason: InterruptionReason)
    ensures
        observation::explains(ObservationOutcome::Interrupted(reason), evidence_for(reason)),
{
}

/// Arriving at the end of a single step from the beginning is observed once, as
/// a success of one tick, and the next tick only says so again.
pub proof fn final_arrivals_are_observed_once(
    plan: MotionPlan,
    settings: FollowerSettings,
    seed: u64,
    context: ObservationContext,
    start: ObservedPathFollower,
    nonce: u64,
    terrain: Terrain,
    frame: &FollowerFrame,
    directive: FollowerDirective,
    end: ObservedPathFollower,
    next_nonce: u64,
    later_frame: &FollowerFrame,
    later_directive: FollowerDirective,
    later: ObservedPathFollower,
    later_nonce: u64,
)
    requires
        start.follower == follower::begun(plan.route(), unsmoothed(settings), seed),
        start.log@ == opened(plan.motion(), context),
        plan.route().nodes@.len() == 2,
        plan.motion().len() == 1,
        nonce < MAX_OBSERVATION_NONCE,
        start.log@.next_attempt(0, nonce).begun(),
        frame.arrived && !frame.paused,
        ticks(start, nonce, terrain, frame, directive, end, next_nonce),
        ticks(
            end,
            next_nonce,
            terrain,
            later_frame,
            later_directive,
            later,
            later_nonce,
        ),
    ensures
        directive is Arrived,
        later_directive is Arrived,
        later == end,
        end.log@.observations.len() == 1,
        end.log@.observations[0].outcome is Success,
        end.log@.observations[0].ticks_taken() == 1,
{
    let (before, walked, between) = choose|
        before: LogState,
        walked: PathFollower,
        between: LogState,
    | #[trigger]
        ticks_through(
            start,
            nonce,
            frame,
            before,
            walked,
            between,
            directive,
            end,
            next_nonce,
        ) && start.follower.ticked(terrain, frame, walked, directive);
    assert(start.follower.stopped(terrain, frame) is Some);
    assert(directive is Arrived);
    assert(between.active is Some);
    let finished = choose|finished: LogState| #[trigger]
        between.finishes(
            ObservationOutcome::Success,
            AttributionEvidence::ReachedPlannedNode,
            finished,
        ) && end.log@ == (LogState { terminal: Some(directive), ..finished });
    assert(finished.observations.len() == 1);
    assert(finished.observations.last() == finished.observations[0]);
}

/// Settings that steer at the immediate planned node.
pub open spec fn unsmoothed(settings: FollowerSettings) -> FollowerSettings {
    FollowerSettings { max_los_skip: 0, ..settings }
}

/// Exact primitive attribution requires the follower to steer at the immediate
/// planned node. Normal LOS smoothing can physically execute a multi-edge
/// corner cut while the telemetry wrapper is timing only the first edge.
pub fn observed_follower_settings(settings: FollowerSettings) -> (observed: FollowerSettings)
    ensures
        observed == unsmoothed(settings),
{
    let mut observed = settings;
    observed.max_los_skip = 0;
    observed
}

} // verus!
