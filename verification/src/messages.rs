//! What errors say.
use vstd::prelude::*;

use crate::adaptive::observation::ObservationError;
use crate::adaptive::promotion::PromotionError;
use crate::adaptive::telemetry::ProfileError;
use crate::local::world::SnapshotError;
use crate::planning::MotionPlanError;
use crate::pos::BlockPos;
use crate::resilience::dependency::{DependencyIndexError, InvalidationError, RouteRevisions};
use crate::resilience::overlay::{
    OverlayApplyError, OverlayConfigError, OverlayScopeMismatch, OverlayTimeError,
};
use crate::resilience::scope::WorldScopeError;
use crate::resilience::splice::{EdgeValidationError, PathSegment, PathSpliceError};
use crate::text;
use crate::text::{push_decimal, push_signed};
use crate::types::PathError;

verus! {

/// How a position is written.
pub open spec fn pos_text(pos: BlockPos) -> Seq<char> {
    "BlockPos { x: "@ + text::signed_decimal(pos.x as int) + ", y: "@
        + text::signed_decimal(pos.y as int) + ", z: "@ + text::signed_decimal(pos.z as int)
        + " }"@
}

fn push_pos(out: &mut String, pos: BlockPos)
    ensures
        final(out)@ == old(out)@ + pos_text(pos),
{
    out.append("BlockPos { x: ");
    push_signed(out, pos.x as i64);
    out.append(", y: ");
    push_signed(out, pos.y as i64);
    out.append(", z: ");
    push_signed(out, pos.z as i64);
    out.append(" }");
    assert(out@ =~= old(out)@ + pos_text(pos));
}

/// How a segment is written.
pub open spec fn segment_text(segment: PathSegment) -> Seq<char> {
    match segment {
        PathSegment::Original => "Original"@,
        PathSegment::Patch => "Patch"@,
        PathSegment::Joined(index) => "Joined("@ + text::decimal(index as nat) + ")"@,
    }
}

fn push_segment(out: &mut String, segment: PathSegment)
    ensures
        final(out)@ == old(out)@ + segment_text(segment),
{
    match segment {
        PathSegment::Original => out.append("Original"),
        PathSegment::Patch => out.append("Patch"),
        PathSegment::Joined(index) => {
            out.append("Joined(");
            push_decimal(out, index as u64);
            out.append(")");
            assert(out@ =~= old(out)@ + segment_text(segment));
        },
    }
}

/// How the end of an overlay epoch is written.
pub open spec fn expiry_text(expiry: Option<u64>) -> Seq<char> {
    match expiry {
        Some(tick) => "Some("@ + text::decimal(tick as nat) + ")"@,
        None => "None"@,
    }
}

fn push_expiry(out: &mut String, expiry: Option<u64>)
    ensures
        final(out)@ == old(out)@ + expiry_text(expiry),
{
    match expiry {
        Some(tick) => {
            out.append("Some(");
            push_decimal(out, tick);
            out.append(")");
            assert(out@ =~= old(out)@ + expiry_text(expiry));
        },
        None => out.append("None"),
    }
}

/// How the revisions of a route are written.
pub open spec fn revisions_text(revisions: RouteRevisions) -> Seq<char> {
    "RouteRevisions { path: "@ + text::decimal(revisions.path as nat) + ", world_basis: "@
        + text::decimal(revisions.world_basis as nat) + ", cost_model: "@ + text::decimal(
        revisions.cost_model as nat,
    ) + ", dynamic_obstacles: OverlayEpoch { revision: "@ + text::decimal(
        revisions.dynamic_obstacles.revision as nat,
    ) + ", valid_until_tick: "@ + expiry_text(revisions.dynamic_obstacles.valid_until_tick)
        + " } }"@
}

fn push_revisions(out: &mut String, revisions: RouteRevisions)
    ensures
        final(out)@ == old(out)@ + revisions_text(revisions),
{
    out.append("RouteRevisions { path: ");
    push_decimal(out, revisions.path);
    out.append(", world_basis: ");
    push_decimal(out, revisions.world_basis);
    out.append(", cost_model: ");
    push_decimal(out, revisions.cost_model);
    out.append(", dynamic_obstacles: OverlayEpoch { revision: ");
    push_decimal(out, revisions.dynamic_obstacles.revision);
    out.append(", valid_until_tick: ");
    push_expiry(out, revisions.dynamic_obstacles.valid_until_tick);
    out.append(" } }");
    assert(out@ =~= old(out)@ + revisions_text(revisions));
}

/// The name of a fault.
fn observation_fault(error: ObservationError) -> (word: &'static str)
    ensures
        word@ == observation_fault_word(error),
{
    match error {
        ObservationError::InvalidContext => "InvalidContext",
        ObservationError::InvalidPrimitive => "InvalidPrimitive",
        ObservationError::InvalidFeatures => "InvalidFeatures",
        ObservationError::InvalidIdentity => "InvalidIdentity",
        ObservationError::InvalidPrediction => "InvalidPrediction",
        ObservationError::TickOrder => "TickOrder",
        ObservationError::InvalidAttribution => "InvalidAttribution",
    }
}

pub open spec fn observation_fault_word(error: ObservationError) -> Seq<char> {
    match error {
        ObservationError::InvalidContext => "InvalidContext"@,
        ObservationError::InvalidPrimitive => "InvalidPrimitive"@,
        ObservationError::InvalidFeatures => "InvalidFeatures"@,
        ObservationError::InvalidIdentity => "InvalidIdentity"@,
        ObservationError::InvalidPrediction => "InvalidPrediction"@,
        ObservationError::TickOrder => "TickOrder"@,
        ObservationError::InvalidAttribution => "InvalidAttribution"@,
    }
}

/// The name of a fault.
fn promotion_fault(error: PromotionError) -> (word: &'static str)
    ensures
        word@ == promotion_fault_word(error),
{
    match error {
        PromotionError::ProfileCapacity => "ProfileCapacity",
        PromotionError::RevisionOverflow => "RevisionOverflow",
        PromotionError::StaleCandidate => "StaleCandidate",
        PromotionError::InsufficientSamples => "InsufficientSamples",
        PromotionError::InsufficientEvaluation => "InsufficientEvaluation",
        PromotionError::InvalidReport => "InvalidReport",
        PromotionError::SafetyRegression => "SafetyRegression",
        PromotionError::PerformanceRegression => "PerformanceRegression",
        PromotionError::NoRollback => "NoRollback",
    }
}

pub open spec fn promotion_fault_word(error: PromotionError) -> Seq<char> {
    match error {
        PromotionError::ProfileCapacity => "ProfileCapacity"@,
        PromotionError::RevisionOverflow => "RevisionOverflow"@,
        PromotionError::StaleCandidate => "StaleCandidate"@,
        PromotionError::InsufficientSamples => "InsufficientSamples"@,
        PromotionError::InsufficientEvaluation => "InsufficientEvaluation"@,
        PromotionError::InvalidReport => "InvalidReport"@,
        PromotionError::SafetyRegression => "SafetyRegression"@,
        PromotionError::PerformanceRegression => "PerformanceRegression"@,
        PromotionError::NoRollback => "NoRollback"@,
    }
}

/// The name of a fault.
fn plan_fault(error: MotionPlanError) -> (word: &'static str)
    ensures
        word@ == plan_fault_word(error),
{
    match error {
        MotionPlanError::InvalidStartTransition => "InvalidStartTransition",
        MotionPlanError::MetadataMismatch => "MetadataMismatch",
        MotionPlanError::MissingGeneratedMetadata => "MissingGeneratedMetadata",
    }
}

pub open spec fn plan_fault_word(error: MotionPlanError) -> Seq<char> {
    match error {
        MotionPlanError::InvalidStartTransition => "InvalidStartTransition"@,
        MotionPlanError::MetadataMismatch => "MetadataMismatch"@,
        MotionPlanError::MissingGeneratedMetadata => "MissingGeneratedMetadata"@,
    }
}

/// The name of a fault.
fn edge_fault(error: EdgeValidationError) -> (word: &'static str)
    ensures
        word@ == edge_fault_word(error),
{
    match error {
        EdgeValidationError::Unsafe => "Unsafe",
        EdgeValidationError::UnknownPrimitive => "UnknownPrimitive",
        EdgeValidationError::StaleWorld => "StaleWorld",
        EdgeValidationError::CostUnavailable => "CostUnavailable",
    }
}

pub open spec fn edge_fault_word(error: EdgeValidationError) -> Seq<char> {
    match error {
        EdgeValidationError::Unsafe => "Unsafe"@,
        EdgeValidationError::UnknownPrimitive => "UnknownPrimitive"@,
        EdgeValidationError::StaleWorld => "StaleWorld"@,
        EdgeValidationError::CostUnavailable => "CostUnavailable"@,
    }
}

impl ObservationError {
    /// What the error says.
    pub open spec fn wording(self) -> Seq<char> {
        "invalid movement observation: "@ + observation_fault_word(self)
    }

    pub fn message(&self) -> (out: String)
        ensures
            out@ == self.wording(),
    {
        let mut out = "invalid movement observation: ".to_owned();
        out.append(observation_fault(*self));
        out
    }
}

impl PromotionError {
    /// What the error says.
    pub open spec fn wording(self) -> Seq<char> {
        "adaptive promotion rejected: "@ + promotion_fault_word(self)
    }

    pub fn message(&self) -> (out: String)
        ensures
            out@ == self.wording(),
    {
        let mut out = "adaptive promotion rejected: ".to_owned();
        out.append(promotion_fault(*self));
        out
    }
}

impl MotionPlanError {
    /// What the error says.
    pub open spec fn wording(self) -> Seq<char> {
        "invalid motion plan: "@ + plan_fault_word(self)
    }

    pub fn message(&self) -> (out: String)
        ensures
            out@ == self.wording(),
    {
        let mut out = "invalid motion plan: ".to_owned();
        out.append(plan_fault(*self));
        out
    }
}

impl ProfileError {
    /// What the error says.
    pub open spec fn wording(self) -> Seq<char> {
        match self {
            ProfileError::Invalid => "profile is invalid or belongs to another context"@,
            ProfileError::TooLarge => "profile exceeds the size limit"@,
            ProfileError::Capacity => "adaptive profile capacity is exhausted"@,
            ProfileError::AlreadyExists => "adaptive profile already exists"@,
            ProfileError::NonceExhausted => "observation nonce space is exhausted"@,
        }
    }

    pub fn message(&self) -> (out: String)
        ensures
            out@ == self.wording(),
    {
        match self {
            ProfileError::Invalid => "profile is invalid or belongs to another context".to_owned(),
            ProfileError::TooLarge => "profile exceeds the size limit".to_owned(),
            ProfileError::Capacity => "adaptive profile capacity is exhausted".to_owned(),
            ProfileError::AlreadyExists => "adaptive profile already exists".to_owned(),
            ProfileError::NonceExhausted => "observation nonce space is exhausted".to_owned(),
        }
    }
}

impl PathError {
    /// What the error says.
    pub open spec fn wording(self) -> Seq<char> {
        match self {
            PathError::NoPath => "no path to the goal"@,
            PathError::SearchBudgetExhausted => "search budget exhausted before reaching the goal"@,
            PathError::Stuck { at } => "stuck while following path at "@ + pos_text(at),
            PathError::Cancelled => "navigation was cancelled"@,
        }
    }

    pub fn message(&self) -> (out: String)
        ensures
            out@ == self.wording(),
    {
        match self {
            PathError::NoPath => "no path to the goal".to_owned(),
            PathError::SearchBudgetExhausted => {
                "search budget exhausted before reaching the goal".to_owned()
            },
            PathError::Stuck { at } => {
                let mut out = "stuck while following path at ".to_owned();
                push_pos(&mut out, *at);
                out
            },
            PathError::Cancelled => "navigation was cancelled".to_owned(),
        }
    }
}

impl SnapshotError {
    /// What the error says.
    pub open spec fn wording(self) -> Seq<char> {
        match self {
            SnapshotError::TooLarge { blocks, maximum } => {
                "snapshot contains "@ + text::decimal(blocks as nat) + " blocks; maximum is "@
                    + text::decimal(maximum as nat)
            },
        }
    }

    pub fn message(&self) -> (out: String)
        ensures
            out@ == self.wording(),
    {
        match self {
            SnapshotError::TooLarge { blocks, maximum } => {
                let mut out = "snapshot contains ".to_owned();
                push_decimal(&mut out, *blocks as u64);
                out.append(" blocks; maximum is ");
                push_decimal(&mut out, *maximum as u64);
                out
            },
        }
    }
}

impl WorldScopeError {
    /// What the error says.
    pub open spec fn wording(self) -> Seq<char> {
        match self {
            WorldScopeError::Empty(field) => field@ + " scope component is empty"@,
            WorldScopeError::TooLong { field, bytes, maximum } => {
                field@ + " scope component is "@ + text::decimal(bytes as nat)
                    + " bytes; maximum is "@ + text::decimal(maximum as nat)
            },
            WorldScopeError::ContainsControl(field) => {
                field@ + " scope component contains a control character"@
            },
        }
    }

    pub fn message(&self) -> (out: String)
        ensures
            out@ == self.wording(),
    {
        match self {
            WorldScopeError::Empty(field) => {
                let mut out = String::new();
                out.append(field);
                out.append(" scope component is empty");
                assert(out@ =~= self.wording());
                out
            },
            WorldScopeError::TooLong { field, bytes, maximum } => {
                let mut out = String::new();
                out.append(field);
                out.append(" scope component is ");
                push_decimal(&mut out, *bytes as u64);
                out.append(" bytes; maximum is ");
                push_decimal(&mut out, *maximum as u64);
                assert(out@ =~= self.wording());
                out
            },
            WorldScopeError::ContainsControl(field) => {
                let mut out = String::new();
                out.append(field);
                out.append(" scope component contains a control character");
                assert(out@ =~= self.wording());
                out
            },
        }
    }
}

impl OverlayTimeError {
    /// What the error says.
    pub open spec fn wording(self) -> Seq<char> {
        match self {
            OverlayTimeError::ClockRegressed { previous, requested } => {
                "overlay clock regressed from tick "@ + text::decimal(previous as nat) + " to "@
                    + text::decimal(requested as nat)
            },
            OverlayTimeError::RevisionExhausted => "overlay revision space is exhausted"@,
        }
    }

    pub fn message(&self) -> (out: String)
        ensures
            out@ == self.wording(),
    {
        match self {
            OverlayTimeError::ClockRegressed { previous, requested } => {
                let mut out = "overlay clock regressed from tick ".to_owned();
                push_decimal(&mut out, *previous as u64);
                out.append(" to ");
                push_decimal(&mut out, *requested as u64);
                out
            },
            OverlayTimeError::RevisionExhausted => "overlay revision space is exhausted".to_owned(),
        }
    }
}

impl OverlayConfigError {
    /// What the error says.
    pub open spec fn wording(self) -> Seq<char> {
        match self {
            OverlayConfigError::InvalidCapacity { capacity, maximum } => {
                "overlay capacity is "@ + text::decimal(capacity as nat) + "; expected 1..="@
                    + text::decimal(maximum as nat)
            },
            OverlayConfigError::InvalidDeadlockPolicy => {
                "deadlock policy requires a nonzero hard timeout and soft penalty"@
            },
        }
    }

    pub fn message(&self) -> (out: String)
        ensures
            out@ == self.wording(),
    {
        match self {
            OverlayConfigError::InvalidCapacity { capacity, maximum } => {
                let mut out = "overlay capacity is ".to_owned();
                push_decimal(&mut out, *capacity as u64);
                out.append("; expected 1..=");
                push_decimal(&mut out, *maximum as u64);
                out
            },
            OverlayConfigError::InvalidDeadlockPolicy => {
                "deadlock policy requires a nonzero hard timeout and soft penalty".to_owned()
            },
        }
    }
}

impl OverlayScopeMismatch {
    /// What the error says.
    pub open spec fn wording(self) -> Seq<char> {
        "overlay belongs to "@ + self.expected.world_name() + "/"@
            + self.expected.dimension_name() + " but "@ + self.actual.world_name() + "/"@
            + self.actual.dimension_name() + " was requested"@
    }

    pub fn message(&self) -> (out: String)
        ensures
            out@ == self.wording(),
    {
        let mut out = "overlay belongs to ".to_owned();
        out.append(self.expected.world());
        out.append("/");
        out.append(self.expected.dimension());
        out.append(" but ");
        out.append(self.actual.world());
        out.append("/");
        out.append(self.actual.dimension());
        out.append(" was requested");
        out
    }
}

impl OverlayApplyError {
    /// What the error says.
    pub open spec fn wording(self) -> Seq<char> {
        match self {
            OverlayApplyError::Scope(error) => error.wording(),
            OverlayApplyError::Time(error) => error.wording(),
        }
    }

    pub fn message(&self) -> (out: String)
        ensures
            out@ == self.wording(),
    {
        match self {
            OverlayApplyError::Scope(error) => error.message(),
            OverlayApplyError::Time(error) => error.message(),
        }
    }
}

impl DependencyIndexError {
    /// What the error says.
    pub open spec fn wording(self) -> Seq<char> {
        match self {
            DependencyIndexError::EdgeOutOfRange { edge, edge_count } => {
                "dependency edge "@ + text::decimal(edge as nat) + " is outside "@
                    + text::decimal(edge_count as nat) + " path edges"@
            },
        }
    }

    pub fn message(&self) -> (out: String)
        ensures
            out@ == self.wording(),
    {
        match self {
            DependencyIndexError::EdgeOutOfRange { edge, edge_count } => {
                let mut out = "dependency edge ".to_owned();
                push_decimal(&mut out, *edge as u64);
                out.append(" is outside ");
                push_decimal(&mut out, *edge_count as u64);
                out.append(" path edges");
                out
            },
        }
    }
}

impl InvalidationError {
    /// What the error says.
    pub open spec fn wording(self) -> Seq<char> {
        match self {
            InvalidationError::ScopeMismatch { expected, actual } => {
                "path scope is "@ + expected.world_name() + "/"@ + expected.dimension_name()
                    + " but update scope is "@ + actual.world_name() + "/"@
                    + actual.dimension_name()
            },
            InvalidationError::PathRevisionMismatch { expected, actual } => {
                "path revision is "@ + text::decimal(expected as nat) + " but update uses "@
                    + text::decimal(actual as nat)
            },
            InvalidationError::WorldContinuityMismatch { expected_from, actual_from } => {
                "world change interval starts at "@ + text::decimal(actual_from as nat)
                    + "; path requires "@ + text::decimal(expected_from as nat)
            },
            InvalidationError::WorldRevisionRegressed { from, to } => {
                "world change interval regresses from "@ + text::decimal(from as nat) + " to "@
                    + text::decimal(to as nat)
            },
            InvalidationError::WorldChangeWithoutRevision { revision } => {
                "world changes were supplied without advancing revision "@
                    + text::decimal(revision as nat)
            },
        }
    }

    pub fn message(&self) -> (out: String)
        ensures
            out@ == self.wording(),
    {
        match self {
            InvalidationError::ScopeMismatch { expected, actual } => {
                let mut out = "path scope is ".to_owned();
                out.append(expected.world());
                out.append("/");
                out.append(expected.dimension());
                out.append(" but update scope is ");
                out.append(actual.world());
                out.append("/");
                out.append(actual.dimension());
                out
            },
            InvalidationError::PathRevisionMismatch { expected, actual } => {
                let mut out = "path revision is ".to_owned();
                push_decimal(&mut out, *expected as u64);
                out.append(" but update uses ");
                push_decimal(&mut out, *actual as u64);
                out
            },
            InvalidationError::WorldContinuityMismatch { expected_from, actual_from } => {
                let mut out = "world change interval starts at ".to_owned();
                push_decimal(&mut out, *actual_from as u64);
                out.append("; path requires ");
                push_decimal(&mut out, *expected_from as u64);
                out
            },
            InvalidationError::WorldRevisionRegressed { from, to } => {
                let mut out = "world change interval regresses from ".to_owned();
                push_decimal(&mut out, *from as u64);
                out.append(" to ");
                push_decimal(&mut out, *to as u64);
                out
            },
            InvalidationError::WorldChangeWithoutRevision { revision } => {
                let mut out = "world changes were supplied without advancing revision ".to_owned();
                push_decimal(&mut out, *revision as u64);
                out
            },
        }
    }
}

impl PathSpliceError {
    /// What the error says.
    pub open spec fn wording(self) -> Seq<char> {
        match self {
            PathSpliceError::NoSegments => "no complete paths were supplied"@,
            PathSpliceError::Empty { segment } => segment_text(segment) + " path is empty"@,
            PathSpliceError::InvalidStartMarker { segment } => {
                segment_text(segment) + " path does not begin with MoveKind::Start"@
            },
            PathSpliceError::EmbeddedStart { segment, node } => {
                segment_text(segment) + " path has an embedded start marker at node "@
                    + text::decimal(node as nat)
            },
            PathSpliceError::InvalidRange { start_node, end_node, node_count } => {
                "splice range "@ + text::decimal(start_node as nat) + "..="@
                    + text::decimal(end_node as nat) + " is invalid for "@
                    + text::decimal(node_count as nat) + " nodes"@
            },
            PathSpliceError::PatchHasNoEdge => "patch must contain at least one edge"@,
            PathSpliceError::EndpointMismatch { segment, expected, actual } => {
                segment_text(segment) + " path endpoint mismatch: expected "@
                    + pos_text(expected) + ", got "@ + pos_text(actual)
            },
            PathSpliceError::TooManyNodes { nodes, maximum } => {
                "structural path has "@ + text::decimal(nodes as nat) + " nodes; maximum is "@
                    + text::decimal(maximum as nat)
            },
            PathSpliceError::AllocationFailed => "could not allocate structural path"@,
            PathSpliceError::ValidatorScopeMismatch { expected, actual } => {
                "validator scope is "@ + actual.world_name() + "/"@ + actual.dimension_name()
                    + "; expected "@ + expected.world_name() + "/"@ + expected.dimension_name()
            },
            PathSpliceError::ValidatorRevisionMismatch { expected, actual } => {
                "validator revisions are "@ + revisions_text(actual) + "; expected "@
                    + revisions_text(expected)
            },
            PathSpliceError::ValidatorEpochExpired { valid_until_tick, validated_at_tick } => {
                "overlay epoch expired at tick "@ + text::decimal(valid_until_tick as nat)
                    + " before validation tick "@ + text::decimal(validated_at_tick as nat)
            },
            PathSpliceError::EdgeRejected { edge, reason } => {
                "validator rejected edge "@ + text::decimal(edge as nat) + ": "@
                    + edge_fault_word(reason)
            },
            PathSpliceError::CostOverflow => "validated path cost overflowed"@,
        }
    }

    pub fn message(&self) -> (out: String)
        ensures
            out@ == self.wording(),
    {
        match self {
            PathSpliceError::NoSegments => "no complete paths were supplied".to_owned(),
            PathSpliceError::Empty { segment } => {
                let mut out = String::new();
                push_segment(&mut out, *segment);
                out.append(" path is empty");
                assert(out@ =~= self.wording());
                out
            },
            PathSpliceError::InvalidStartMarker { segment } => {
                let mut out = String::new();
                push_segment(&mut out, *segment);
                out.append(" path does not begin with MoveKind::Start");
                assert(out@ =~= self.wording());
                out
            },
            PathSpliceError::EmbeddedStart { segment, node } => {
                let mut out = String::new();
                push_segment(&mut out, *segment);
                out.append(" path has an embedded start marker at node ");
                push_decimal(&mut out, *node as u64);
                assert(out@ =~= self.wording());
                out
            },
            PathSpliceError::InvalidRange { start_node, end_node, node_count } => {
                let mut out = "splice range ".to_owned();
                push_decimal(&mut out, *start_node as u64);
                out.append("..=");
                push_decimal(&mut out, *end_node as u64);
                out.append(" is invalid for ");
                push_decimal(&mut out, *node_count as u64);
                out.append(" nodes");
                out
            },
            PathSpliceError::PatchHasNoEdge => "patch must contain at least one edge".to_owned(),
            PathSpliceError::EndpointMismatch { segment, expected, actual } => {
                let mut out = String::new();
                push_segment(&mut out, *segment);
                out.append(" path endpoint mismatch: expected ");
                push_pos(&mut out, *expected);
                out.append(", got ");
                push_pos(&mut out, *actual);
                assert(out@ =~= self.wording());
                out
            },
            PathSpliceError::TooManyNodes { nodes, maximum } => {
                let mut out = "structural path has ".to_owned();
                push_decimal(&mut out, *nodes as u64);
                out.append(" nodes; maximum is ");
                push_decimal(&mut out, *maximum as u64);
                out
            },
            PathSpliceError::AllocationFailed => "could not allocate structural path".to_owned(),
            PathSpliceError::ValidatorScopeMismatch { expected, actual } => {
                let mut out = "validator scope is ".to_owned();
                out.append(actual.world());
                out.append("/");
                out.append(actual.dimension());
                out.append("; expected ");
                out.append(expected.world());
                out.append("/");
                out.append(expected.dimension());
                out
            },
            PathSpliceError::ValidatorRevisionMismatch { expected, actual } => {
                let mut out = "validator revisions are ".to_owned();
                push_revisions(&mut out, *actual);
                out.append("; expected ");
                push_revisions(&mut out, *expected);
                out
            },
            PathSpliceError::ValidatorEpochExpired { valid_until_tick, validated_at_tick } => {
                let mut out = "overlay epoch expired at tick ".to_owned();
                push_decimal(&mut out, *valid_until_tick as u64);
                out.append(" before validation tick ");
                push_decimal(&mut out, *validated_at_tick as u64);
                out
            },
            PathSpliceError::EdgeRejected { edge, reason } => {
                let mut out = "validator rejected edge ".to_owned();
                push_decimal(&mut out, *edge as u64);
                out.append(": ");
                out.append(edge_fault(*reason));
                out
            },
            PathSpliceError::CostOverflow => "validated path cost overflowed".to_owned(),
        }
    }
}

} // verus!
