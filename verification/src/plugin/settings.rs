//! Navigation settings, requests, and statuses.
use vstd::prelude::*;

use crate::adaptive::context::ProfileKey;
use crate::adaptive::estimate;
use crate::adaptive::estimate::AdaptiveSettings;
use crate::local::moves;
use crate::local::moves::MoveContext;
use crate::local::settings;
use crate::local::settings::FollowerSettings;
use crate::pos::BlockPos;

verus! {

#[derive(Debug)]
pub struct PathfinderSettings {
    /// Ticks between fallback replans for dynamic goals. Set to 0 to disable.
    pub dynamic_replan_ticks: u32,
    pub max_plan_legs: u32,
    /// How far a route may detour off the straight line from start to goal:
    /// the snapshot is the only world the planner ever sees.
    pub snapshot_margin: i32,
    pub snapshot_max_span_xz: i32,
    /// Tall enough to hold a climb from sea level to a summit. The horizontal
    /// cap bounds the volume, so height is nearly free.
    pub snapshot_max_span_y: i32,
    pub planner: MoveContext,
    pub follower: FollowerSettings,
}

impl Default for PathfinderSettings {
    fn default() -> (made: PathfinderSettings)
        ensures
            made.dynamic_replan_ticks == 0,
            made.max_plan_legs == 16,
            made.snapshot_margin == 48,
            made.snapshot_max_span_xz == 128,
            made.snapshot_max_span_y == 256,
            moves::default_context(made.planner),
            made.follower == settings::default_settings(),
    {
        PathfinderSettings {
            dynamic_replan_ticks: 0,
            max_plan_legs: 16,
            snapshot_margin: 48,
            snapshot_max_span_xz: 128,
            snapshot_max_span_y: 256,
            planner: MoveContext::default(),
            follower: FollowerSettings::default(),
        }
    }
}

impl Clone for PathfinderSettings {
    fn clone(&self) -> (copy: PathfinderSettings)
        ensures
            copy == *self,
    {
        PathfinderSettings {
            dynamic_replan_ticks: self.dynamic_replan_ticks,
            max_plan_legs: self.max_plan_legs,
            snapshot_margin: self.snapshot_margin,
            snapshot_max_span_xz: self.snapshot_max_span_xz,
            snapshot_max_span_y: self.snapshot_max_span_y,
            planner: self.planner.clone(),
            follower: self.follower,
        }
    }
}

/// Opt-in adaptive routing configuration.
///
/// The default is shadow-only and has no profile key, so it cannot silently
/// persist data or alter route selection. Set an explicit [`ProfileKey`] before
/// enabling a promoted model.
#[derive(Debug)]
pub struct AdaptivePathfinderSettings {
    pub profile: Option<ProfileKey>,
    pub learner: AdaptiveSettings,
    pub build_id: String,
    pub actor_capability_hash: u64,
    /// Application-maintained revision for the approximately captured world
    /// view. Live follower validation remains authoritative.
    pub world_revision: u64,
}

impl Clone for AdaptivePathfinderSettings {
    fn clone(&self) -> (copy: AdaptivePathfinderSettings)
        ensures
            copy == *self,
    {
        AdaptivePathfinderSettings {
            profile: match &self.profile {
                Some(key) => Some(key.clone()),
                None => None,
            },
            learner: self.learner,
            build_id: self.build_id.clone(),
            actor_capability_hash: self.actor_capability_hash,
            world_revision: self.world_revision,
        }
    }
}

impl AdaptivePathfinderSettings {
    /// The defaults of a build.
    pub fn for_build(build_id: String) -> (made: AdaptivePathfinderSettings)
        ensures
            made.profile is None,
            made.learner == estimate::default_settings(),
            made.build_id@ == build_id@,
            made.actor_capability_hash == 0,
            made.world_revision == 1,
    {
        AdaptivePathfinderSettings {
            profile: None,
            learner: AdaptiveSettings::default(),
            build_id,
            actor_capability_hash: 0,
            world_revision: 1,
        }
    }
}

/// The default build is the version of this package.
impl Default for AdaptivePathfinderSettings {
    fn default() -> (made: AdaptivePathfinderSettings)
        ensures
            made.profile is None,
            made.learner == estimate::default_settings(),
            made.build_id@ == "0.1.0"@,
            made.actor_capability_hash == 0,
            made.world_revision == 1,
    {
        AdaptivePathfinderSettings::for_build("0.1.0".to_owned())
    }
}

#[derive(Clone, Copy, PartialEq, Eq, Structural, Debug)]
pub enum NavigationGoal {
    Fixed(BlockPos),
    Dynamic { position: BlockPos, revision: u64 },
}

impl NavigationGoal {
    pub open spec fn place(self) -> BlockPos {
        match self {
            NavigationGoal::Fixed(position) => position,
            NavigationGoal::Dynamic { position, .. } => position,
        }
    }

    pub fn position(self) -> (position: BlockPos)
        ensures
            position == self.place(),
    {
        match self {
            NavigationGoal::Fixed(position) => position,
            NavigationGoal::Dynamic { position, .. } => position,
        }
    }
}

/// What a local player is asked to do. A new request replaces the old one.
#[derive(Clone, Copy, PartialEq, Eq, Structural, Debug)]
pub struct NavigationRequest {
    pub goal: NavigationGoal,
    pub path_seed: u64,
    /// Increase for each request; older results are ignored.
    pub generation: u64,
}

/// Pauses navigation without using the stall budget.
#[derive(Clone, Copy, PartialEq, Eq, Structural, Debug)]
pub struct NavigationPaused(pub bool);

impl Default for NavigationPaused {
    fn default() -> (paused: NavigationPaused)
        ensures
            !paused.0,
    {
        NavigationPaused(false)
    }
}

#[derive(Clone, Copy, PartialEq, Eq, Structural, Debug)]
pub enum NavigationStatus {
    Idle,
    Planning { generation: u64 },
    Following { generation: u64 },
    Paused { generation: u64 },
    Arrived { generation: u64 },
    Failed { generation: u64 },
}

impl Default for NavigationStatus {
    fn default() -> (status: NavigationStatus)
        ensures
            status == NavigationStatus::Idle,
    {
        NavigationStatus::Idle
    }
}

/// What waiting for a navigation comes back with, if it is over.
pub open spec fn settled(
    status: NavigationStatus,
    requested: Option<u64>,
    generation: u64,
) -> Option<NavigationStatus> {
    if status == (NavigationStatus::Arrived { generation }) || status == (
    NavigationStatus::Failed { generation }) {
        Some(status)
    } else {
        match requested {
            Some(current) => if current != generation {
                Some(NavigationStatus::Failed { generation })
            } else {
                None
            },
            None => if status == NavigationStatus::Idle {
                Some(NavigationStatus::Idle)
            } else {
                None
            },
        }
    }
}

/// Decides whether a wait for `generation` is over: it arrived or failed, was
/// replaced by another request, or was cancelled and has come to rest.
pub fn settled_status(
    status: NavigationStatus,
    requested: Option<u64>,
    generation: u64,
) -> (over: Option<NavigationStatus>)
    ensures
        over == settled(status, requested, generation),
{
    match status {
        NavigationStatus::Arrived { generation: current }
        | NavigationStatus::Failed { generation: current } => {
            if current == generation {
                return Some(status);
            }
        },
        _ => {},
    }
    match requested {
        Some(current) => if current != generation {
            Some(NavigationStatus::Failed { generation })
        } else {
            None
        },
        None => match status {
            NavigationStatus::Idle => Some(NavigationStatus::Idle),
            _ => None,
        },
    }
}

} // verus!
