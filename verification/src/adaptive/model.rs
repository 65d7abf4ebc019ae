//! Frozen cost models that scale only the adaptable part of an edge.
use vstd::prelude::*;

use crate::adaptive::features;
use crate::adaptive::features::{CostComponents, FeatureKey, MoveFeatures, PrimitiveId};
use crate::arith;
use crate::key_map::KeyMap;
use crate::local::moves::MovementCosts;
use crate::types::Cost;

verus! {

/// A multiplier of one, in millionths.
pub const MULTIPLIER_ONE: u32 = 1_000_000;

#[derive(Clone, Copy, PartialEq, Eq, Structural, Debug)]
pub enum AdaptiveMode {
    Disabled,
    Shadow,
    Enabled,
}

impl Default for AdaptiveMode {
    fn default() -> (mode: AdaptiveMode)
        ensures
            mode == AdaptiveMode::Shadow,
    {
        AdaptiveMode::Shadow
    }
}

/// The multiplier for a context: the exact one, else the primitive's own.
pub open spec fn multiplier_for(
    model: Map<u128, u32>,
    primitive: PrimitiveId,
    context: MoveFeatures,
) -> Option<u32> {
    let exact = features::exact_key(primitive, context) as u128;
    let fallback = features::fallback_key(primitive) as u128;
    if model.contains_key(exact) {
        Some(model[exact])
    } else if model.contains_key(fallback) {
        Some(model[fallback])
    } else {
        None
    }
}

/// A cost scaled by a multiplier in millionths, rounded up. Zero stays zero.
pub open spec fn scaled(cost: Cost, multiplier: u32) -> Cost {
    arith::clamp_u32((cost * multiplier + 999_999) / 1_000_000)
}

/// Only time and reliability are scaled.
pub open spec fn scaled_components(baseline: CostComponents, multiplier: u32) -> CostComponents {
    CostComponents {
        time: scaled(baseline.time, multiplier),
        reliability: scaled(baseline.reliability, multiplier),
        ..baseline
    }
}

fn lookup_multiplier(
    model: &KeyMap<u32>,
    primitive: PrimitiveId,
    context: MoveFeatures,
) -> (multiplier: Option<u32>)
    ensures
        multiplier == multiplier_for(model@, primitive, context),
{
    match model.get(FeatureKey::exact(primitive, context).0 as u128) {
        Some(multiplier) => Some(*multiplier),
        None => match model.get(FeatureKey::fallback(primitive).0 as u128) {
            Some(multiplier) => Some(*multiplier),
            None => None,
        },
    }
}

fn scale_cost_preserving_zero(cost: Cost, multiplier: u32) -> (result: Cost)
    ensures
        result == scaled(cost, multiplier),
{
    proof {
        assert(0 <= cost * multiplier <= 0xffff_ffff * 0xffff_ffff) by (nonlinear_arith)
            requires
                0 <= cost <= 0xffff_ffff,
                0 <= multiplier <= 0xffff_ffff,
        ;
        if cost == 0 {
            assert(cost * multiplier == 0) by (nonlinear_arith)
                requires
                    cost == 0,
            ;
        }
    }
    if cost == 0 {
        return 0;
    }
    let wide: u64 = (cost as u64 * multiplier as u64).saturating_add(999_999) / 1_000_000;
    if wide > u32::MAX as u64 {
        u32::MAX
    } else {
        wide as u32
    }
}

fn scale_cost(cost: Cost, multiplier: u32) -> (result: Cost)
    ensures
        result == arith::max_int(scaled(cost, multiplier) as int, 1),
{
    arith::max_u32(scale_cost_preserving_zero(cost, multiplier), 1)
}

/// A model frozen for one navigation leg.
#[derive(Debug)]
pub struct CostModelSnapshot {
    pub data_revision: u64,
    pub model_revision: u64,
    pub mode: AdaptiveMode,
    pub baseline: MovementCosts,
    /// Promoted multipliers by packed context key.
    pub active: KeyMap<u32>,
    /// Shadow multipliers by packed context key.
    pub candidate: KeyMap<u32>,
}

impl Clone for CostModelSnapshot {
    fn clone(&self) -> (copy: CostModelSnapshot)
        ensures
            copy.data_revision == self.data_revision,
            copy.model_revision == self.model_revision,
            copy.mode == self.mode,
            copy.baseline_costs() == self.baseline_costs(),
            copy.active_model() == self.active_model(),
            copy.candidate_model() == self.candidate_model(),
    {
        CostModelSnapshot {
            data_revision: self.data_revision,
            model_revision: self.model_revision,
            mode: self.mode,
            baseline: self.baseline,
            active: self.active.duplicate(),
            candidate: self.candidate.duplicate(),
        }
    }
}

impl CostModelSnapshot {
    /// The promoted multipliers, by packed context key.
    pub open spec fn active_model(self) -> Map<u128, u32> {
        self.active@
    }

    /// The shadow multipliers, by packed context key.
    pub open spec fn candidate_model(self) -> Map<u128, u32> {
        self.candidate@
    }

    pub open spec fn baseline_costs(self) -> MovementCosts {
        self.baseline
    }

    /// Whether this snapshot can change route ordering.
    pub open spec fn routes(self) -> bool {
        self.mode == AdaptiveMode::Enabled && self.active_model() != Map::<u128, u32>::empty()
    }

    /// An edge's parts under the active model.
    pub open spec fn adapted(
        self,
        primitive: PrimitiveId,
        context: MoveFeatures,
        baseline: CostComponents,
    ) -> CostComponents {
        if self.mode != AdaptiveMode::Enabled {
            baseline
        } else {
            match multiplier_for(self.active_model(), primitive, context) {
                Some(multiplier) => scaled_components(baseline, multiplier),
                None => baseline,
            }
        }
    }

    /// Whether this snapshot can change route ordering. Shadow, disabled, and
    /// regime-mismatched snapshots are exact baseline models.
    pub fn affects_routing(&self) -> (r: bool)
        ensures
            r == self.routes(),
    {
        let promoted: usize = self.active.len();
        proof {
            if promoted == 0 {
                assert(self.active@ =~= Map::<u128, u32>::empty());
            }
        }
        self.mode == AdaptiveMode::Enabled && promoted > 0
    }

    /// Candidate scalar helper for costs that contain only adaptable time and
    /// retry work.
    pub fn proposed_edge_cost(
        &self,
        primitive: PrimitiveId,
        context: MoveFeatures,
        baseline_edge_cost: Cost,
    ) -> (proposed: Option<Cost>)
        ensures
            proposed == match multiplier_for(self.candidate_model(), primitive, context) {
                Some(multiplier) => Some(
                    arith::max_int(scaled(baseline_edge_cost, multiplier) as int, 1) as Cost,
                ),
                None => None,
            },
    {
        match lookup_multiplier(&self.candidate, primitive, context) {
            Some(multiplier) => Some(scale_cost(baseline_edge_cost, multiplier)),
            None => None,
        }
    }

    /// Applies the shadow candidate to adaptable components while preserving
    /// all fixed safety components.
    pub fn proposed_edge_components(
        &self,
        primitive: PrimitiveId,
        context: MoveFeatures,
        baseline: CostComponents,
    ) -> (proposed: Option<CostComponents>)
        ensures
            proposed == match multiplier_for(self.candidate_model(), primitive, context) {
                Some(multiplier) => Some(scaled_components(baseline, multiplier)),
                None => None,
            },
    {
        match lookup_multiplier(&self.candidate, primitive, context) {
            Some(multiplier) => Some(
                CostComponents {
                    time: scale_cost_preserving_zero(baseline.time, multiplier),
                    reliability: scale_cost_preserving_zero(baseline.reliability, multiplier),
                    ..baseline
                },
            ),
            None => None,
        }
    }

    /// Produces an offline routing view of the candidate. It does not mutate or
    /// promote the profile and is intended for paired shadow evaluation.
    pub fn candidate_view(&self) -> (view: CostModelSnapshot)
        ensures
            view.data_revision == self.data_revision,
            view.model_revision == self.model_revision,
            view.mode == AdaptiveMode::Enabled,
            view.baseline_costs() == self.baseline_costs(),
            view.active_model() == self.candidate_model(),
            view.candidate_model() == self.candidate_model(),
    {
        CostModelSnapshot {
            data_revision: self.data_revision,
            model_revision: self.model_revision,
            mode: AdaptiveMode::Enabled,
            baseline: self.baseline,
            active: self.candidate.duplicate(),
            candidate: self.candidate.duplicate(),
        }
    }

    /// Returns an active-model scalar cost containing only adaptable work.
    /// Shadow and disabled snapshots leave the baseline unchanged.
    pub fn edge_cost(
        &self,
        primitive: PrimitiveId,
        context: MoveFeatures,
        baseline_edge_cost: Cost,
    ) -> (cost: Cost)
        ensures
            cost == (if self.mode != AdaptiveMode::Enabled {
                baseline_edge_cost as int
            } else {
                match multiplier_for(self.active_model(), primitive, context) {
                    Some(multiplier) => arith::max_int(
                        scaled(baseline_edge_cost, multiplier) as int,
                        1,
                    ),
                    None => baseline_edge_cost as int,
                }
            }),
    {
        if self.mode != AdaptiveMode::Enabled {
            return baseline_edge_cost;
        }
        match lookup_multiplier(&self.active, primitive, context) {
            Some(multiplier) => scale_cost(baseline_edge_cost, multiplier),
            None => baseline_edge_cost,
        }
    }

    /// Scales only the adaptable time/retry portion of an edge.
    pub fn edge_components(
        &self,
        primitive: PrimitiveId,
        context: MoveFeatures,
        baseline: CostComponents,
    ) -> (components: CostComponents)
        ensures
            components == self.adapted(primitive, context, baseline),
    {
        if self.mode != AdaptiveMode::Enabled {
            return baseline;
        }
        match lookup_multiplier(&self.active, primitive, context) {
            Some(multiplier) => CostComponents {
                time: scale_cost_preserving_zero(baseline.time, multiplier),
                reliability: scale_cost_preserving_zero(baseline.reliability, multiplier),
                ..baseline
            },
            None => baseline,
        }
    }

    /// A scalar cost under the primitive's own active multiplier.
    pub open spec fn rescaled(self, cost: Cost, id: u16) -> Cost {
        if self.mode == AdaptiveMode::Enabled && self.active_model().contains_key(id as u128) {
            arith::max_int(scaled(cost, self.active_model()[id as u128]) as int, 1) as Cost
        } else {
            cost
        }
    }

    fn rescale(&self, cost: Cost, id: u16) -> (result: Cost)
        ensures
            result == self.rescaled(cost, id),
    {
        if self.mode != AdaptiveMode::Enabled {
            return cost;
        }
        match self.active.get(id as u128) {
            Some(multiplier) => scale_cost(cost, *multiplier),
            None => cost,
        }
    }

    /// Compatibility helper for one-block scalar cost fields. Fall is omitted:
    /// its fixed base and per-block slope must be scaled together.
    pub fn apply(&self, baseline: MovementCosts) -> (costs: MovementCosts)
        ensures
            costs == (MovementCosts {
                cardinal_walk: self.rescaled(baseline.cardinal_walk, PrimitiveId::WALK_CARDINAL),
                diagonal_walk: self.rescaled(baseline.diagonal_walk, PrimitiveId::WALK_DIAGONAL),
                step: self.rescaled(baseline.step, PrimitiveId::STEP),
                jump: self.rescaled(baseline.jump, PrimitiveId::JUMP),
                fall_base: baseline.fall_base,
                fall_per_block: baseline.fall_per_block,
                parkour_per_block: self.rescaled(
                    baseline.parkour_per_block,
                    PrimitiveId::PARKOUR,
                ),
                swim: self.rescaled(baseline.swim, PrimitiveId::SWIM),
                climb: self.rescaled(baseline.climb, PrimitiveId::CLIMB),
                swim_exit: self.rescaled(baseline.swim_exit, PrimitiveId::SWIM_EXIT),
            }),
    {
        MovementCosts {
            cardinal_walk: self.rescale(baseline.cardinal_walk, PrimitiveId::WALK_CARDINAL),
            diagonal_walk: self.rescale(baseline.diagonal_walk, PrimitiveId::WALK_DIAGONAL),
            step: self.rescale(baseline.step, PrimitiveId::STEP),
            jump: self.rescale(baseline.jump, PrimitiveId::JUMP),
            fall_base: baseline.fall_base,
            fall_per_block: baseline.fall_per_block,
            parkour_per_block: self.rescale(baseline.parkour_per_block, PrimitiveId::PARKOUR),
            swim: self.rescale(baseline.swim, PrimitiveId::SWIM),
            climb: self.rescale(baseline.climb, PrimitiveId::CLIMB),
            swim_exit: self.rescale(baseline.swim_exit, PrimitiveId::SWIM_EXIT),
        }
    }

    pub fn baseline(&self) -> (costs: MovementCosts)
        ensures
            costs == self.baseline_costs(),
    {
        self.baseline
    }
}

/// Learning never touches immutable costs: safety, damage, desync and resource
/// are the same under every model.
pub proof fn fixed_costs_are_never_scaled(
    snapshot: CostModelSnapshot,
    primitive: PrimitiveId,
    context: MoveFeatures,
    baseline: CostComponents,
)
    ensures
        snapshot.adapted(primitive, context, baseline).safety == baseline.safety,
        snapshot.adapted(primitive, context, baseline).damage == baseline.damage,
        snapshot.adapted(primitive, context, baseline).desync == baseline.desync,
        snapshot.adapted(primitive, context, baseline).resource == baseline.resource,
{
}

/// A snapshot that does not affect routing leaves every edge exactly as the
/// baseline priced it.
pub proof fn baseline_models_change_nothing(
    snapshot: CostModelSnapshot,
    primitive: PrimitiveId,
    context: MoveFeatures,
    baseline: CostComponents,
)
    requires
        !snapshot.routes(),
    ensures
        snapshot.adapted(primitive, context, baseline) == baseline,
{
}

} // verus!
