//! A bounded set of dynamic obstacles tied to one world and dimension.
use std::sync::Arc;

use vstd::prelude::*;

use crate::arith;
use crate::key_map;
use crate::key_map::KeyMap;
use crate::local::moves::MoveContext;
use crate::local::world;
use crate::local::world::{offset, BlockKind, Terrain, WorldView};
use crate::pos;
use crate::pos::BlockPos;
use crate::resilience::scope::WorldScope;
use crate::types::Cost;

verus! {

/// Maximum number of dynamic obstacles retained by one overlay.
pub const MAX_OVERLAY_ENTRIES: usize = 16_384;

/// Higher-priority observations survive capacity pressure and replace lower
/// priority observations at the same position.
#[derive(Clone, Copy, PartialEq, Eq, PartialOrd, Ord, Structural, Debug)]
pub struct ObstaclePriority(pub u8);

impl ObstaclePriority {
    pub const BACKGROUND: u8 = 32;

    pub const NORMAL: u8 = 128;

    pub const CRITICAL: u8 = 255;

    pub fn new(value: u8) -> (priority: ObstaclePriority)
        ensures
            priority.0 == value,
    {
        ObstaclePriority(value)
    }

    pub fn get(self) -> (value: u8)
        ensures
            value == self.0,
    {
        self.0
    }
}

/// How an active dynamic obstacle affects planning.
#[derive(Clone, Copy, PartialEq, Eq, Structural, Debug)]
pub enum ObstacleKind {
    /// Treat the occupied body block as non-supportive and impassable.
    Hard,
    /// Add a finite toll to routes that enter the position.
    Soft { penalty: Cost },
}

/// Stable identity of the bot or subsystem that owns an obstacle.
#[derive(Clone, Copy, PartialEq, Eq, PartialOrd, Ord, Hash, Structural, Debug)]
pub struct ObstacleOwner(pub u64);

impl ObstacleOwner {
    /// Reservations not owned by a particular bot.
    pub const SYSTEM: u64 = 0;
}

/// Deterministic, bounded escape from mutual hard reservations.
///
/// Lower owner IDs have right of way: they see a higher-ID owner's hard
/// reservation as a soft toll, while the higher-ID bot yields. Every hard
/// reservation also degrades to a soft toll after `max_hard_ticks`, preventing
/// a crashed owner from creating a permanent deadlock before its TTL expires.
#[derive(Clone, Copy, PartialEq, Eq, Structural, Debug)]
pub struct DeadlockPolicy {
    pub max_hard_ticks: u64,
    pub yielded_soft_penalty: Cost,
}

impl Default for DeadlockPolicy {
    fn default() -> (policy: DeadlockPolicy)
        ensures
            policy == (DeadlockPolicy { max_hard_ticks: 40, yielded_soft_penalty: 2_000 }),
    {
        DeadlockPolicy { max_hard_ticks: 40, yielded_soft_penalty: 2_000 }
    }
}

#[derive(Clone, Copy, PartialEq, Eq, Structural, Debug)]
pub struct ObstacleEntry {
    pub owner: ObstacleOwner,
    pub kind: ObstacleKind,
    pub priority: ObstaclePriority,
    pub created_at_tick: u64,
    /// Exclusive expiry tick.
    pub expires_at_tick: u64,
    pub sequence: u64,
}

impl ObstacleEntry {
    pub fn owner(&self) -> (owner: ObstacleOwner)
        ensures
            owner == self.owner,
    {
        self.owner
    }

    pub fn kind(&self) -> (kind: ObstacleKind)
        ensures
            kind == self.kind,
    {
        self.kind
    }

    pub fn priority(&self) -> (priority: ObstaclePriority)
        ensures
            priority == self.priority,
    {
        self.priority
    }

    /// Exclusive expiry tick.
    pub fn expires_at_tick(&self) -> (tick: u64)
        ensures
            tick == self.expires_at_tick,
    {
        self.expires_at_tick
    }

    pub fn created_at_tick(&self) -> (tick: u64)
        ensures
            tick == self.created_at_tick,
    {
        self.created_at_tick
    }

    pub open spec fn active_at(self, now_tick: u64) -> bool {
        now_tick < self.expires_at_tick
    }

    pub fn is_active(&self, now_tick: u64) -> (r: bool)
        ensures
            r == self.active_at(now_tick),
    {
        now_tick < self.expires_at_tick
    }

    /// The tick at which a hard reservation degrades to a soft toll.
    pub open spec fn hard_until(self, policy: DeadlockPolicy) -> int {
        arith::min_int(
            arith::clamp_u64(self.created_at_tick + policy.max_hard_ticks) as int,
            self.expires_at_tick as int,
        )
    }

    fn hard_deadline(&self, policy: DeadlockPolicy) -> (tick: u64)
        ensures
            tick == self.hard_until(policy),
    {
        let degraded: u64 = self.created_at_tick.saturating_add(policy.max_hard_ticks);
        if degraded <= self.expires_at_tick {
            degraded
        } else {
            self.expires_at_tick
        }
    }

    /// Whether a hard reservation degrades between two ticks.
    pub open spec fn crosses(self, policy: DeadlockPolicy, last_tick: u64, now_tick: u64) -> bool {
        self.kind is Hard && last_tick < self.hard_until(policy) && now_tick >= self.hard_until(
            policy,
        )
    }

    /// What a viewer sees of this entry: nothing of its own, a soft toll where
    /// it has precedence or the hard time is over, otherwise the entry's kind.
    pub open spec fn effect(
        self,
        policy: DeadlockPolicy,
        viewer: Option<ObstacleOwner>,
        now_tick: u64,
    ) -> Option<ObstacleKind> {
        if viewer == Some(self.owner) {
            None
        } else if self.kind is Hard && (now_tick >= self.hard_until(policy) || (
        viewer matches Some(v) && v.0 < self.owner.0)) {
            Some(ObstacleKind::Soft { penalty: policy.yielded_soft_penalty })
        } else {
            Some(self.kind)
        }
    }

    fn effect_for(
        &self,
        policy: DeadlockPolicy,
        viewer: Option<ObstacleOwner>,
        now_tick: u64,
    ) -> (effect: Option<ObstacleKind>)
        ensures
            effect == self.effect(policy, viewer, now_tick),
    {
        let (own, precedes): (bool, bool) = match viewer {
            Some(v) => (v == self.owner, v.0 < self.owner.0),
            None => (false, false),
        };
        if own {
            return None;
        }
        if self.kind == ObstacleKind::Hard && (now_tick >= self.hard_deadline(policy) || precedes) {
            return Some(ObstacleKind::Soft { penalty: policy.yielded_soft_penalty });
        }
        Some(self.kind)
    }

    /// The tick at which time alone changes an effect.
    pub open spec fn next_change(self, policy: DeadlockPolicy, effect: ObstacleKind) -> int {
        if effect is Hard {
            self.hard_until(policy)
        } else {
            self.expires_at_tick as int
        }
    }
}

#[derive(Clone, Copy, PartialEq, Eq, Structural, Debug)]
pub struct EvictedObstacle {
    pub pos: BlockPos,
    pub owner: ObstacleOwner,
}

#[derive(Clone, Copy, PartialEq, Eq, Debug)]
pub enum OverlayInsert {
    Inserted { evicted: Option<EvictedObstacle> },
    Replaced,
    RejectedLowerPriority,
    RejectedOwnedByPeer,
    RejectedHardDowngrade,
    RejectedCapacity,
    RejectedInvalidTtl,
    RejectedZeroPenalty,
    RejectedClockRegression,
    RejectedRevisionExhausted,
}

/// A frozen overlay generation and the first tick at which time alone can
/// change its effective entries.
#[derive(Clone, Copy, PartialEq, Eq, Debug)]
pub struct OverlayEpoch {
    pub revision: u64,
    pub valid_until_tick: Option<u64>,
}

impl OverlayEpoch {
    pub open spec fn expired(self, now_tick: u64) -> bool {
        self.valid_until_tick matches Some(expiry) && now_tick >= expiry
    }

    pub fn is_same(self, other: OverlayEpoch) -> (r: bool)
        ensures
            r == (self == other),
    {
        self.revision == other.revision && match (self.valid_until_tick, other.valid_until_tick) {
            (Some(a), Some(b)) => a == b,
            (None, None) => true,
            _ => false,
        }
    }

    pub fn is_expired_at(self, now_tick: u64) -> (r: bool)
        ensures
            r == self.expired(now_tick),
    {
        match self.valid_until_tick {
            Some(expiry) => now_tick >= expiry,
            None => false,
        }
    }
}

#[derive(Clone, Copy, PartialEq, Eq, Structural, Debug)]
pub enum OverlayTimeError {
    ClockRegressed { previous: u64, requested: u64 },
    RevisionExhausted,
}

#[derive(Clone, Copy, PartialEq, Eq, Structural, Debug)]
pub enum OverlayConfigError {
    InvalidCapacity { capacity: usize, maximum: usize },
    InvalidDeadlockPolicy,
}

#[derive(PartialEq, Eq, Debug)]
pub struct OverlayScopeMismatch {
    pub expected: WorldScope,
    pub actual: WorldScope,
}

impl Clone for OverlayScopeMismatch {
    fn clone(&self) -> (copy: OverlayScopeMismatch)
        ensures
            copy == *self,
    {
        OverlayScopeMismatch { expected: self.expected.clone(), actual: self.actual.clone() }
    }
}

#[derive(PartialEq, Eq, Debug)]
pub enum OverlayApplyError {
    Scope(OverlayScopeMismatch),
    Time(OverlayTimeError),
}

impl Clone for OverlayApplyError {
    fn clone(&self) -> (copy: OverlayApplyError)
        ensures
            copy == *self,
    {
        match self {
            OverlayApplyError::Scope(mismatch) => OverlayApplyError::Scope(mismatch.clone()),
            OverlayApplyError::Time(error) => OverlayApplyError::Time(*error),
        }
    }
}

/// An entry with the position it stands at.
#[derive(Clone, Copy, Debug)]
struct Placed {
    pos: BlockPos,
    entry: ObstacleEntry,
}

/// A bounded obstacle set tied to exactly one world and dimension.
#[derive(Debug)]
pub struct DynamicObstacleOverlay {
    scope: WorldScope,
    capacity: usize,
    revision: u64,
    last_tick: u64,
    deadlock_policy: DeadlockPolicy,
    entries: KeyMap<Placed>,
}

impl Clone for DynamicObstacleOverlay {
    fn clone(&self) -> (copy: DynamicObstacleOverlay)
        ensures
            copy.home() == self.home(),
            copy.limit() == self.limit(),
            copy.generation() == self.generation(),
            copy.clock() == self.clock(),
            copy.policy() == self.policy(),
            copy.obstacles() == self.obstacles(),
            self.wf() ==> copy.wf(),
    {
        DynamicObstacleOverlay {
            scope: self.scope.clone(),
            capacity: self.capacity,
            revision: self.revision,
            last_tick: self.last_tick,
            deadlock_policy: self.deadlock_policy,
            entries: self.entries.duplicate(),
        }
    }
}

/// Every stored item is filed under the key of its position.
spec fn filed(items: Map<u128, Placed>) -> bool {
    forall|key: u128| #[trigger] items.contains_key(key) ==> key == pos::slot(items[key].pos)
}

spec fn by_position(items: Map<u128, Placed>) -> Map<BlockPos, ObstacleEntry> {
    Map::new(
        |at: BlockPos| items.contains_key(pos::slot(at)),
        |at: BlockPos| items[pos::slot(at)].entry,
    )
}

proof fn lemma_by_position_len(items: Map<u128, Placed>)
    requires
        filed(items),
        items.dom().finite(),
    ensures
        by_position(items).dom().finite(),
        by_position(items).dom().len() == items.dom().len(),
{
    pos::lemma_slot_count(by_position(items).dom(), items.dom());
}

/// The items still active at a tick.
spec fn kept(items: Map<u128, Placed>, now_tick: u64) -> Map<u128, Placed> {
    Map::new(
        |key: u128| items.contains_key(key) && items[key].entry.active_at(now_tick),
        |key: u128| items[key],
    )
}

/// The entries still active at a tick.
pub open spec fn active_entries(
    obstacles: Map<BlockPos, ObstacleEntry>,
    now_tick: u64,
) -> Map<BlockPos, ObstacleEntry> {
    Map::new(
        |at: BlockPos| obstacles.contains_key(at) && obstacles[at].active_at(now_tick),
        |at: BlockPos| obstacles[at],
    )
}

/// The least important obstacle: lowest priority, then oldest.
pub open spec fn is_least(obstacles: Map<BlockPos, ObstacleEntry>, at: BlockPos) -> bool {
    &&& obstacles.contains_key(at)
    &&& forall|other: BlockPos| #[trigger]
        obstacles.contains_key(other) ==> obstacles[at].priority.0 < obstacles[other].priority.0
            || (obstacles[at].priority.0 == obstacles[other].priority.0 && obstacles[at].sequence
            <= obstacles[other].sequence)
}

impl DynamicObstacleOverlay {
    pub closed spec fn home(self) -> WorldScope {
        self.scope
    }

    pub closed spec fn limit(self) -> usize {
        self.capacity
    }

    pub closed spec fn generation(self) -> u64 {
        self.revision
    }

    pub closed spec fn clock(self) -> u64 {
        self.last_tick
    }

    pub closed spec fn policy(self) -> DeadlockPolicy {
        self.deadlock_policy
    }

    /// Every retained obstacle by position.
    pub closed spec fn obstacles(self) -> Map<BlockPos, ObstacleEntry> {
        by_position(self.entries@)
    }

    /// The invariant of an overlay: never over capacity, and every entry was
    /// recorded by a distinct earlier generation.
    pub closed spec fn wf(self) -> bool {
        &&& 0 < self.capacity <= MAX_OVERLAY_ENTRIES
        &&& self.deadlock_policy.max_hard_ticks > 0
        &&& self.deadlock_policy.yielded_soft_penalty > 0
        &&& filed(self.entries@)
        &&& self.entries@.dom().finite()
        &&& self.entries@.dom().len() <= self.capacity
        &&& forall|key: u128| #[trigger]
            self.entries@.contains_key(key) ==> self.entries@[key].entry.sequence <= self.revision
        &&& forall|a: u128, b: u128|
            #![trigger self.entries@.contains_key(a), self.entries@.contains_key(b)]
            self.entries@.contains_key(a) && self.entries@.contains_key(b) && a != b
                ==> self.entries@[a].entry.sequence != self.entries@[b].entry.sequence
    }

    pub fn try_new(scope: WorldScope, capacity: usize) -> (made: Result<
        DynamicObstacleOverlay,
        OverlayConfigError,
    >)
        ensures
            match made {
                Ok(overlay) => {
                    &&& 0 < capacity <= MAX_OVERLAY_ENTRIES
                    &&& overlay.wf()
                    &&& overlay.home() == scope
                    &&& overlay.limit() == capacity
                    &&& overlay.generation() == 0
                    &&& overlay.clock() == 0
                    &&& overlay.policy() == (DeadlockPolicy {
                        max_hard_ticks: 40,
                        yielded_soft_penalty: 2_000,
                    })
                    &&& overlay.obstacles() == Map::<BlockPos, ObstacleEntry>::empty()
                },
                Err(error) => {
                    &&& !(0 < capacity <= MAX_OVERLAY_ENTRIES)
                    &&& error == (OverlayConfigError::InvalidCapacity {
                        capacity,
                        maximum: MAX_OVERLAY_ENTRIES,
                    })
                },
            },
    {
        Self::try_new_with_policy(scope, capacity, DeadlockPolicy::default())
    }

    pub fn try_new_with_policy(
        scope: WorldScope,
        capacity: usize,
        deadlock_policy: DeadlockPolicy,
    ) -> (made: Result<DynamicObstacleOverlay, OverlayConfigError>)
        ensures
            match made {
                Ok(overlay) => {
                    &&& 0 < capacity <= MAX_OVERLAY_ENTRIES
                    &&& deadlock_policy.max_hard_ticks > 0
                    &&& deadlock_policy.yielded_soft_penalty > 0
                    &&& overlay.wf()
                    &&& overlay.home() == scope
                    &&& overlay.limit() == capacity
                    &&& overlay.generation() == 0
                    &&& overlay.clock() == 0
                    &&& overlay.policy() == deadlock_policy
                    &&& overlay.obstacles() == Map::<BlockPos, ObstacleEntry>::empty()
                },
                Err(OverlayConfigError::InvalidCapacity { capacity: given, maximum }) => {
                    &&& !(0 < capacity <= MAX_OVERLAY_ENTRIES)
                    &&& given == capacity
                    &&& maximum == MAX_OVERLAY_ENTRIES
                },
                Err(OverlayConfigError::InvalidDeadlockPolicy) => {
                    &&& 0 < capacity <= MAX_OVERLAY_ENTRIES
                    &&& deadlock_policy.max_hard_ticks == 0
                        || deadlock_policy.yielded_soft_penalty == 0
                },
            },
    {
        if capacity == 0 || capacity > MAX_OVERLAY_ENTRIES {
            return Err(
                OverlayConfigError::InvalidCapacity { capacity, maximum: MAX_OVERLAY_ENTRIES },
            );
        }
        if deadlock_policy.max_hard_ticks == 0 || deadlock_policy.yielded_soft_penalty == 0 {
            return Err(OverlayConfigError::InvalidDeadlockPolicy);
        }
        let overlay = DynamicObstacleOverlay {
            scope,
            capacity,
            revision: 0,
            last_tick: 0,
            deadlock_policy,
            entries: KeyMap::new(),
        };
        assert(overlay.obstacles() =~= Map::<BlockPos, ObstacleEntry>::empty());
        Ok(overlay)
    }

    pub fn scope(&self) -> (scope: &WorldScope)
        ensures
            *scope == self.home(),
    {
        &self.scope
    }

    pub fn capacity(&self) -> (capacity: usize)
        ensures
            capacity == self.limit(),
    {
        self.capacity
    }

    /// Monotonic generation for invalidating paths frozen against this overlay.
    pub fn revision(&self) -> (revision: u64)
        ensures
            revision == self.generation(),
    {
        self.revision
    }

    pub fn last_tick(&self) -> (tick: u64)
        ensures
            tick == self.clock(),
    {
        self.last_tick
    }

    pub fn deadlock_policy(&self) -> (policy: DeadlockPolicy)
        ensures
            policy == self.policy(),
    {
        self.deadlock_policy
    }

    /// Number of retained entries, including entries awaiting a prune call.
    pub fn retained_len(&self) -> (n: usize)
        requires
            self.wf(),
        ensures
            n == self.obstacles().dom().len(),
            self.obstacles().dom().finite(),
            n <= self.limit(),
    {
        proof {
            lemma_by_position_len(self.entries@);
        }
        self.entries.len()
    }

    /// Number of entries active at the last successfully advanced tick.
    pub fn active_len(&self) -> (n: usize)
        requires
            self.wf(),
        ensures
            n == active_entries(self.obstacles(), self.clock()).dom().len(),
    {
        let live = self.retained_at(self.last_tick);
        proof {
            lemma_by_position_len(live@);
        }
        live.len()
    }

    /// Looks up an entry at the last successfully advanced tick.
    pub fn get(&self, at: BlockPos) -> (found: Option<&ObstacleEntry>)
        ensures
            match found {
                Some(entry) => {
                    &&& self.obstacles().contains_key(at)
                    &&& *entry == self.obstacles()[at]
                    &&& entry.active_at(self.clock())
                },
                None => self.obstacles().contains_key(at) ==> !self.obstacles()[at].active_at(
                    self.clock(),
                ),
            },
    {
        proof {
            pos::lemma_slots_are_distinct();
        }
        match self.entries.get(at.key()) {
            Some(placed) => if placed.entry.is_active(self.last_tick) {
                Some(&placed.entry)
            } else {
                None
            },
            None => None,
        }
    }

    /// The items still active at a tick.
    fn retained_at(&self, now_tick: u64) -> (live: KeyMap<Placed>)
        requires
            self.wf(),
        ensures
            live@ == kept(self.entries@, now_tick),
            live@.dom().finite(),
            live@.dom().len() <= self.entries@.dom().len(),
            filed(live@),
            by_position(live@) == active_entries(self.obstacles(), now_tick),
    {
        let mut live: KeyMap<Placed> = KeyMap::new();
        let total: usize = self.entries.len();
        let ghost items = self.entries.items_in_order();
        proof {
            key_map::lemma_items_map(items);
        }
        let mut i: usize = 0;
        while i < total
            invariant
                i <= total == items.len(),
                items == self.entries.items_in_order(),
                key_map::keys_increase(items),
                self.entries@ == key_map::items_map(items),
                forall|key: u128| #[trigger]
                    live@.contains_key(key) ==> self.entries@.contains_key(key) && live@[key]
                        == self.entries@[key] && live@[key].entry.active_at(now_tick),
                forall|j: int|
                    0 <= j < i && (#[trigger] items[j]).1.entry.active_at(now_tick)
                        ==> live@.contains_key(items[j].0),
            decreases total - i,
        {
            let placed: Placed = *self.entries.value_at(i);
            if placed.entry.is_active(now_tick) {
                live.insert(self.entries.key_at(i), placed);
            }
            i += 1;
        }
        let count: usize = live.len();
        proof {
            assert forall|key: u128| #[trigger]
                kept(self.entries@, now_tick).contains_key(key) implies live@.contains_key(key) by {
                let j = choose|j: int| 0 <= j < items.len() && (#[trigger] items[j]).0 == key;
                assert(items[j].1 == self.entries@[key]);
            }
            assert(live@ =~= kept(self.entries@, now_tick));
            vstd::set_lib::lemma_len_subset(live@.dom(), self.entries@.dom());
            assert(by_position(live@) =~= active_entries(self.obstacles(), now_tick));
        }
        live
    }

    /// Whether a hard reservation passes its deadline between the last tick
    /// and `now_tick`.
    fn crosses_hard_deadline(&self, now_tick: u64) -> (crossed: bool)
        requires
            self.wf(),
        ensures
            crossed == exists|at: BlockPos| #[trigger]
                self.obstacles().contains_key(at) && self.obstacles()[at].crosses(
                    self.policy(),
                    self.clock(),
                    now_tick,
                ),
    {
        let total: usize = self.entries.len();
        let ghost items = self.entries.items_in_order();
        proof {
            key_map::lemma_items_map(items);
        }
        let mut i: usize = 0;
        while i < total
            invariant
                i <= total == items.len(),
                items == self.entries.items_in_order(),
                key_map::keys_increase(items),
                self.entries@ == key_map::items_map(items),
                self.wf(),
                forall|j: int|
                    0 <= j < i ==> !(#[trigger] items[j]).1.entry.crosses(
                        self.policy(),
                        self.clock(),
                        now_tick,
                    ),
            decreases total - i,
        {
            let entry: ObstacleEntry = self.entries.value_at(i).entry;
            if entry.kind == ObstacleKind::Hard {
                let hard_until: u64 = entry.hard_deadline(self.deadlock_policy);
                if self.last_tick < hard_until && now_tick >= hard_until {
                    proof {
                        let key = items[i as int].0;
                        key_map::lemma_items_map(items);
                        let at = self.entries@[key].pos;
                        assert(key == pos::slot(at));
                        assert(self.obstacles().contains_key(at));
                    }
                    return true;
                }
            }
            i += 1;
        }
        proof {
            key_map::lemma_items_map(items);
            assert forall|at: BlockPos| #[trigger]
                self.obstacles().contains_key(at) implies !self.obstacles()[at].crosses(
                self.policy(),
                self.clock(),
                now_tick,
            ) by {
                let key = pos::slot(at);
                assert(self.entries@.contains_key(key));
                let j = choose|j: int| 0 <= j < items.len() && (#[trigger] items[j]).0 == key;
                assert(items[j].1.entry == self.obstacles()[at]);
            }
        }
        false
    }

    /// What moving the clock to `now_tick` makes of an overlay.
    pub open spec fn advanced(self, after: DynamicObstacleOverlay, now_tick: u64) -> bool {
        &&& after.home() == self.home()
        &&& after.limit() == self.limit()
        &&& after.policy() == self.policy()
        &&& after.clock() == now_tick
        &&& after.obstacles() == active_entries(self.obstacles(), now_tick)
        &&& after.generation() == self.generation_at(now_tick)
    }

    /// The generation once the clock has moved to `now_tick`.
    pub open spec fn generation_at(self, now_tick: u64) -> int {
        if self.stirs(now_tick) {
            self.generation() + 1
        } else {
            self.generation() as int
        }
    }

    /// Whether moving the clock to `now_tick` changes any entry.
    pub open spec fn stirs(self, now_tick: u64) -> bool {
        exists|at: BlockPos| #[trigger]
            self.obstacles().contains_key(at) && (!self.obstacles()[at].active_at(now_tick)
                || self.obstacles()[at].crosses(self.policy(), self.clock(), now_tick))
    }

    /// Advances the overlay clock monotonically and makes TTL/deadlock
    /// transitions observable through [`Self::revision`].
    pub fn advance_to(&mut self, now_tick: u64) -> (removed: Result<usize, OverlayTimeError>)
        requires
            old(self).wf(),
        ensures
            final(self).wf(),
            match removed {
                Ok(count) => {
                    &&& now_tick >= old(self).clock()
                    &&& !(old(self).stirs(now_tick) && old(self).generation() == u64::MAX)
                    &&& old(self).advanced(*final(self), now_tick)
                    &&& count == old(self).obstacles().dom().len() - final(self).obstacles().dom().len()
                },
                Err(OverlayTimeError::ClockRegressed { previous, requested }) => {
                    &&& now_tick < old(self).clock()
                    &&& previous == old(self).clock()
                    &&& requested == now_tick
                    &&& *final(self) == *old(self)
                },
                Err(OverlayTimeError::RevisionExhausted) => {
                    &&& now_tick >= old(self).clock()
                    &&& old(self).stirs(now_tick)
                    &&& old(self).generation() == u64::MAX
                    &&& *final(self) == *old(self)
                },
            },
    {
        if now_tick < self.last_tick {
            return Err(
                OverlayTimeError::ClockRegressed { previous: self.last_tick, requested: now_tick },
            );
        }
        let crossed: bool = self.crosses_hard_deadline(now_tick);
        let live = self.retained_at(now_tick);
        let before: usize = self.entries.len();
        let after: usize = live.len();
        let removed: usize = before - after;
        proof {
            lemma_by_position_len(self.entries@);
            lemma_by_position_len(live@);
            assert(removed > 0 <==> exists|at: BlockPos| #[trigger]
                self.obstacles().contains_key(at) && !self.obstacles()[at].active_at(now_tick)) by {
                let all = self.obstacles().dom();
                let some = active_entries(self.obstacles(), now_tick).dom();
                if removed == 0 {
                    vstd::set_lib::lemma_subset_equality(some, all);
                } else if some =~= all {
                } else {
                    assert(exists|at: BlockPos| all.contains(at) && !some.contains(at));
                }
            }
        }
        if removed > 0 || crossed {
            let next: u64 = match self.next_revision() {
                Ok(next) => next,
                Err(error) => {
                    return Err(error);
                },
            };
            self.entries = live;
            self.revision = next;
        } else {
            assert(active_entries(self.obstacles(), now_tick) =~= self.obstacles());
        }
        self.last_tick = now_tick;
        Ok(removed)
    }

    fn next_revision(&self) -> (next: Result<u64, OverlayTimeError>)
        ensures
            match next {
                Ok(n) => n == self.revision + 1,
                Err(error) => self.revision == u64::MAX && error
                    == OverlayTimeError::RevisionExhausted,
            },
    {
        if self.revision == u64::MAX {
            Err(OverlayTimeError::RevisionExhausted)
        } else {
            Ok(self.revision + 1)
        }
    }

    /// Removes an entry only when the caller proves ownership.
    pub fn remove_owned(&mut self, at: BlockPos, owner: ObstacleOwner) -> (removed: Result<
        Option<ObstacleEntry>,
        OverlayTimeError,
    >)
        requires
            old(self).wf(),
        ensures
            final(self).wf(),
            final(self).home() == old(self).home(),
            final(self).limit() == old(self).limit(),
            final(self).policy() == old(self).policy(),
            final(self).clock() == old(self).clock(),
            ({
                let owned = old(self).obstacles().contains_key(at) && old(self).obstacles()[at].owner == owner;
                match removed {
                    Ok(Some(entry)) => {
                        &&& owned
                        &&& entry == old(self).obstacles()[at]
                        &&& final(self).obstacles() == old(self).obstacles().remove(at)
                        &&& final(self).generation() == old(self).generation() + 1
                    },
                    Ok(None) => !owned && *final(self) == *old(self),
                    Err(error) => {
                        &&& owned
                        &&& old(self).generation() == u64::MAX
                        &&& error == OverlayTimeError::RevisionExhausted
                        &&& *final(self) == *old(self)
                    },
                }
            }),
    {
        proof {
            pos::lemma_slots_are_distinct();
        }
        let key: u128 = at.key();
        let entry: ObstacleEntry = match self.entries.get(key) {
            Some(placed) => placed.entry,
            None => {
                return Ok(None);
            },
        };
        if entry.owner != owner {
            return Ok(None);
        }
        let next: u64 = match self.next_revision() {
            Ok(next) => next,
            Err(error) => {
                return Err(error);
            },
        };
        self.entries.remove(key);
        self.revision = next;
        assert(self.obstacles() =~= old(self).obstacles().remove(at));
        Ok(Some(entry))
    }
}

/// Why an otherwise valid observation is refused by the entries that are
/// active when it arrives, if it is.
pub open spec fn refusal(
    active: Map<BlockPos, ObstacleEntry>,
    generation: int,
    limit: usize,
    at: BlockPos,
    owner: ObstacleOwner,
    kind: ObstacleKind,
    priority: ObstaclePriority,
) -> Option<OverlayInsert> {
    if active.contains_key(at) {
        let existing = active[at];
        if priority.0 < existing.priority.0 {
            Some(OverlayInsert::RejectedLowerPriority)
        } else if priority == existing.priority && owner != existing.owner {
            Some(OverlayInsert::RejectedOwnedByPeer)
        } else if existing.kind is Hard && kind is Soft {
            Some(OverlayInsert::RejectedHardDowngrade)
        } else if generation == u64::MAX {
            Some(OverlayInsert::RejectedRevisionExhausted)
        } else {
            None
        }
    } else if generation == u64::MAX {
        Some(OverlayInsert::RejectedRevisionExhausted)
    } else if active.dom().len() == limit && (exists|least: BlockPos| #[trigger]
        is_least(active, least) && priority.0 < active[least].priority.0) {
        Some(OverlayInsert::RejectedCapacity)
    } else {
        None
    }
}

/// The outcome of an accepted observation and the entries it leaves.
pub open spec fn accepted(
    active: Map<BlockPos, ObstacleEntry>,
    limit: usize,
    at: BlockPos,
    entry: ObstacleEntry,
    outcome: OverlayInsert,
    after: Map<BlockPos, ObstacleEntry>,
) -> bool {
    if active.contains_key(at) {
        outcome is Replaced && after == active.insert(at, entry)
    } else if active.dom().len() == limit {
        &&& outcome matches OverlayInsert::Inserted { evicted: Some(victim) }
        &&& is_least(active, victim.pos)
        &&& victim.owner == active[victim.pos].owner
        &&& after == active.remove(victim.pos).insert(at, entry)
    } else {
        outcome == (OverlayInsert::Inserted { evicted: None }) && after == active.insert(at, entry)
    }
}

impl DynamicObstacleOverlay {
    /// The entry with the lowest priority, and the oldest of those.
    fn least_entry(&self) -> (least: Placed)
        requires
            self.wf(),
            self.entries@.dom().len() > 0,
        ensures
            is_least(self.obstacles(), least.pos),
            self.obstacles()[least.pos] == least.entry,
    {
        let total: usize = self.entries.len();
        let ghost items = self.entries.items_in_order();
        proof {
            key_map::lemma_items_map(items);
        }
        let mut least: Placed = *self.entries.value_at(0);
        let ghost mut found: int = 0;
        let mut i: usize = 1;
        while i < total
            invariant
                1 <= i <= total == items.len(),
                items == self.entries.items_in_order(),
                0 <= found < i,
                least == items[found].1,
                forall|j: int|
                    0 <= j < i ==> least.entry.priority.0 < (
                    #[trigger] items[j]).1.entry.priority.0 || (least.entry.priority.0
                        == items[j].1.entry.priority.0 && least.entry.sequence
                        <= items[j].1.entry.sequence),
            decreases total - i,
        {
            let candidate: Placed = *self.entries.value_at(i);
            let lower: bool = candidate.entry.priority.0 < least.entry.priority.0 || (
            candidate.entry.priority.0 == least.entry.priority.0 && candidate.entry.sequence
                < least.entry.sequence);
            if lower {
                least = candidate;
                proof {
                    found = i as int;
                }
            }
            i += 1;
        }
        proof {
            let key = items[found].0;
            assert(self.entries@.contains_key(key) && self.entries@[key] == least);
            assert forall|other: BlockPos| #[trigger]
                self.obstacles().contains_key(other) implies least.entry.priority.0
                < self.obstacles()[other].priority.0 || (least.entry.priority.0
                == self.obstacles()[other].priority.0 && least.entry.sequence
                <= self.obstacles()[other].sequence) by {
                let k = pos::slot(other);
                assert(self.entries@.contains_key(k));
                let j = choose|j: int| 0 <= j < items.len() && (#[trigger] items[j]).0 == k;
                assert(items[j].1.entry == self.obstacles()[other]);
            }
        }
        least
    }

    /// Files `entry` under `at` as the next generation.
    fn record(&mut self, at: BlockPos, entry: ObstacleEntry)
        requires
            old(self).wf(),
            old(self).generation() < u64::MAX,
            entry.sequence == old(self).generation() + 1,
            old(self).obstacles().contains_key(at) || old(self).obstacles().dom().len() < old(self).limit(),
        ensures
            final(self).wf(),
            final(self).home() == old(self).home(),
            final(self).limit() == old(self).limit(),
            final(self).policy() == old(self).policy(),
            final(self).clock() == old(self).clock(),
            final(self).generation() == old(self).generation() + 1,
            final(self).obstacles() == old(self).obstacles().insert(at, entry),
    {
        proof {
            pos::lemma_slots_are_distinct();
            lemma_by_position_len(self.entries@);
        }
        self.entries.insert(at.key(), Placed { pos: at, entry });
        self.revision = self.revision + 1;
        assert(self.obstacles() =~= old(self).obstacles().insert(at, entry));
    }

    /// Drops the entry at `at` without a new generation.
    fn discard(&mut self, at: BlockPos)
        requires
            old(self).wf(),
            old(self).obstacles().contains_key(at),
        ensures
            final(self).wf(),
            final(self).home() == old(self).home(),
            final(self).limit() == old(self).limit(),
            final(self).policy() == old(self).policy(),
            final(self).clock() == old(self).clock(),
            final(self).generation() == old(self).generation(),
            final(self).obstacles() == old(self).obstacles().remove(at),
            final(self).obstacles().dom().len() == old(self).obstacles().dom().len() - 1,
    {
        proof {
            pos::lemma_slots_are_distinct();
            lemma_by_position_len(self.entries@);
        }
        self.entries.remove(at.key());
        assert(self.obstacles() =~= old(self).obstacles().remove(at));
    }

    /// Inserts an obstacle with a TTL relative to `now_tick`.
    ///
    /// At capacity, the lowest-priority oldest entry is evicted only when the
    /// incoming observation is at least as important. Thus noisy background
    /// observations cannot displace a critical collision report.
    pub fn insert(
        &mut self,
        at: BlockPos,
        owner: ObstacleOwner,
        kind: ObstacleKind,
        priority: ObstaclePriority,
        now_tick: u64,
        ttl_ticks: u64,
    ) -> (outcome: OverlayInsert)
        requires
            old(self).wf(),
        ensures
            final(self).wf(),
            if ttl_ticks == 0 || now_tick + ttl_ticks > u64::MAX {
                outcome is RejectedInvalidTtl && *final(self) == *old(self)
            } else if kind == (ObstacleKind::Soft { penalty: 0 }) {
                outcome is RejectedZeroPenalty && *final(self) == *old(self)
            } else if now_tick < old(self).clock() {
                outcome is RejectedClockRegression && *final(self) == *old(self)
            } else if old(self).generation_at(now_tick) > u64::MAX {
                outcome is RejectedRevisionExhausted && *final(self) == *old(self)
            } else {
                let active = active_entries(old(self).obstacles(), now_tick);
                let generation = old(self).generation_at(now_tick);
                match refusal(
                    active,
                    generation,
                    old(self).limit(),
                    at,
                    owner,
                    kind,
                    priority,
                ) {
                    Some(reason) => outcome == reason && old(self).advanced(*final(self), now_tick),
                    None => {
                        &&& final(self).home() == old(self).home()
                        &&& final(self).limit() == old(self).limit()
                        &&& final(self).policy() == old(self).policy()
                        &&& final(self).clock() == now_tick
                        &&& final(self).generation() == generation + 1
                        &&& accepted(
                            active,
                            old(self).limit(),
                            at,
                            ObstacleEntry {
                                owner,
                                kind,
                                priority,
                                created_at_tick: now_tick,
                                expires_at_tick: (now_tick + ttl_ticks) as u64,
                                sequence: (generation + 1) as u64,
                            },
                            outcome,
                            final(self).obstacles(),
                        )
                    },
                }
            },
    {
        if ttl_ticks == 0 || now_tick > u64::MAX - ttl_ticks {
            return OverlayInsert::RejectedInvalidTtl;
        }
        let expires_at_tick: u64 = now_tick + ttl_ticks;
        if kind == (ObstacleKind::Soft { penalty: 0 }) {
            return OverlayInsert::RejectedZeroPenalty;
        }
        match self.advance_to(now_tick) {
            Ok(_) => {},
            Err(OverlayTimeError::ClockRegressed { .. }) => {
                return OverlayInsert::RejectedClockRegression;
            },
            Err(OverlayTimeError::RevisionExhausted) => {
                return OverlayInsert::RejectedRevisionExhausted;
            },
        }
        let ghost active = self.obstacles();
        let soft: bool = match kind {
            ObstacleKind::Soft { .. } => true,
            ObstacleKind::Hard => false,
        };
        let standing: Option<ObstacleEntry> = match self.entries.get(at.key()) {
            Some(placed) => Some(placed.entry),
            None => None,
        };
        proof {
            pos::lemma_slots_are_distinct();
            assert(standing is Some <==> active.contains_key(at));
            lemma_by_position_len(self.entries@);
        }
        if let Some(existing) = standing {
            if priority.0 < existing.priority.0 {
                return OverlayInsert::RejectedLowerPriority;
            }
            if priority.0 == existing.priority.0 && owner != existing.owner {
                return OverlayInsert::RejectedOwnedByPeer;
            }
            if existing.kind == ObstacleKind::Hard && soft {
                return OverlayInsert::RejectedHardDowngrade;
            }
        }
        if self.revision == u64::MAX {
            return OverlayInsert::RejectedRevisionExhausted;
        }
        let entry = ObstacleEntry {
            owner,
            kind,
            priority,
            created_at_tick: now_tick,
            expires_at_tick,
            sequence: self.revision + 1,
        };
        if standing.is_some() {
            self.record(at, entry);
            return OverlayInsert::Replaced;
        }
        let mut evicted: Option<EvictedObstacle> = None;
        if self.entries.len() == self.capacity {
            let victim: Placed = self.least_entry();
            if priority.0 < victim.entry.priority.0 {
                return OverlayInsert::RejectedCapacity;
            }
            self.discard(victim.pos);
            evicted = Some(EvictedObstacle { pos: victim.pos, owner: victim.entry.owner });
            proof {
                assert(is_least(active, victim.pos));
                assert forall|least: BlockPos| #[trigger] is_least(active, least) implies !(
                priority.0 < active[least].priority.0) by {
                    assert(active.contains_key(victim.pos) && active.contains_key(least));
                }
            }
        }
        self.record(at, entry);
        OverlayInsert::Inserted { evicted }
    }
}

/// What a viewer sees at `at`, if anything.
pub open spec fn seen_at(
    entries: Map<BlockPos, ObstacleEntry>,
    policy: DeadlockPolicy,
    viewer: Option<ObstacleOwner>,
    now_tick: u64,
    at: BlockPos,
) -> Option<ObstacleKind> {
    if entries.contains_key(at) {
        entries[at].effect(policy, viewer, now_tick)
    } else {
        None
    }
}

/// The avoid tolls of a context once a viewer's obstacles are added: the
/// largest toll on hard obstacles, and the penalty on top of what was there on
/// soft ones.
pub open spec fn tolled(
    base: Map<BlockPos, Cost>,
    entries: Map<BlockPos, ObstacleEntry>,
    policy: DeadlockPolicy,
    viewer: Option<ObstacleOwner>,
    now_tick: u64,
) -> Map<BlockPos, Cost> {
    Map::new(
        |at: BlockPos|
            base.contains_key(at) || seen_at(entries, policy, viewer, now_tick, at) is Some,
        |at: BlockPos|
            match seen_at(entries, policy, viewer, now_tick, at) {
                Some(ObstacleKind::Hard) => u32::MAX,
                Some(ObstacleKind::Soft { penalty }) => if base.contains_key(at) {
                    arith::clamp_u32(base[at] + penalty)
                } else {
                    penalty
                },
                None => base[at],
            },
    )
}

/// Whether `until` is the first tick at which time alone changes what a viewer
/// sees; `None` when it sees nothing.
pub open spec fn lasts_until(
    entries: Map<BlockPos, ObstacleEntry>,
    policy: DeadlockPolicy,
    viewer: Option<ObstacleOwner>,
    now_tick: u64,
    until: Option<u64>,
) -> bool {
    match until {
        Some(tick) => {
            &&& exists|at: BlockPos|
                (#[trigger] seen_at(entries, policy, viewer, now_tick, at)) is Some && tick
                    == entries[at].next_change(
                    policy,
                    seen_at(entries, policy, viewer, now_tick, at)->0,
                )
            &&& forall|at: BlockPos|
                (#[trigger] seen_at(entries, policy, viewer, now_tick, at)) is Some ==> tick
                    <= entries[at].next_change(
                    policy,
                    seen_at(entries, policy, viewer, now_tick, at)->0,
                )
        },
        None => forall|at: BlockPos|
            (#[trigger] seen_at(entries, policy, viewer, now_tick, at)) is None,
    }
}

/// A frozen view stays true until its epoch expires: at every tick before
/// that, the same entries are active and look the same to the viewer.
pub proof fn frozen_views_hold_until_expiry(
    entries: Map<BlockPos, ObstacleEntry>,
    policy: DeadlockPolicy,
    viewer: Option<ObstacleOwner>,
    now_tick: u64,
    epoch: OverlayEpoch,
    later: u64,
    at: BlockPos,
)
    requires
        forall|p: BlockPos| #[trigger]
            entries.contains_key(p) ==> entries[p].active_at(now_tick),
        lasts_until(entries, policy, viewer, now_tick, epoch.valid_until_tick),
        now_tick <= later,
        !epoch.expired(later),
    ensures
        seen_at(entries, policy, viewer, later, at) == seen_at(
            entries,
            policy,
            viewer,
            now_tick,
            at,
        ),
        seen_at(entries, policy, viewer, now_tick, at) is Some ==> entries[at].active_at(later),
{
    let now = seen_at(entries, policy, viewer, now_tick, at);
    if entries.contains_key(at) && now is Some {
        assert(now is Some);
    }
}

/// Lower owner ids have right of way: of two bots that reserve each other's
/// way, at most one sees a hard obstacle.
pub proof fn mutual_reservations_cannot_deadlock(
    a: ObstacleEntry,
    b: ObstacleEntry,
    policy: DeadlockPolicy,
    now_tick: u64,
)
    ensures
        !(a.effect(policy, Some(b.owner), now_tick) == Some(ObstacleKind::Hard) && b.effect(
            policy,
            Some(a.owner),
            now_tick,
        ) == Some(ObstacleKind::Hard)),
{
}

/// No reservation stays hard longer than the deadlock policy allows.
pub proof fn hard_reservations_degrade(
    entry: ObstacleEntry,
    policy: DeadlockPolicy,
    viewer: Option<ObstacleOwner>,
    now_tick: u64,
)
    requires
        now_tick >= entry.created_at_tick + policy.max_hard_ticks,
    ensures
        entry.effect(policy, viewer, now_tick) != Some(ObstacleKind::Hard),
{
}

/// An overlay never retains more obstacles than its capacity, which is itself
/// bounded.
pub proof fn overlays_stay_within_capacity(overlay: DynamicObstacleOverlay)
    requires
        overlay.wf(),
    ensures
        overlay.obstacles().dom().finite(),
        overlay.obstacles().dom().len() <= overlay.limit() <= MAX_OVERLAY_ENTRIES,
{
    lemma_by_position_len(overlay.entries@);
}

/// Capacity pressure never displaces a more important observation: whatever an
/// accepted insertion removes has at most the priority of the newcomer.
pub proof fn evictions_spare_higher_priorities(
    active: Map<BlockPos, ObstacleEntry>,
    generation: int,
    limit: usize,
    at: BlockPos,
    entry: ObstacleEntry,
    outcome: OverlayInsert,
    after: Map<BlockPos, ObstacleEntry>,
    lost: BlockPos,
)
    requires
        refusal(active, generation, limit, at, entry.owner, entry.kind, entry.priority) is None,
        accepted(active, limit, at, entry, outcome, after),
        active.contains_key(lost),
        !after.contains_key(lost) || after[lost] != active[lost],
    ensures
        active[lost].priority.0 <= entry.priority.0,
{
    if !active.contains_key(at) && active.dom().len() == limit {
        let victim = outcome->Inserted_evicted->0;
        assert(is_least(active, victim.pos));
    }
}

/// A frozen context plus a hard-obstacle world view.
pub struct AppliedOverlay<'a, W: WorldView + ?Sized> {
    base: &'a W,
    hard: KeyMap<BlockPos>,
    context: MoveContext,
    overlay_epoch: OverlayEpoch,
}

/// Every hard position is filed under its own key.
spec fn marked(hard: Map<u128, BlockPos>) -> bool {
    forall|key: u128| #[trigger] hard.contains_key(key) ==> key == pos::slot(hard[key])
}

impl<'a, W: WorldView + ?Sized> AppliedOverlay<'a, W> {
    #[verifier::type_invariant]
    spec fn wf(self) -> bool {
        marked(self.hard@)
    }

    /// The world below the overlay.
    pub closed spec fn ground(self) -> Terrain {
        self.base.terrain()
    }

    pub closed spec fn hard_at(self, at: BlockPos) -> bool {
        self.hard@.contains_key(pos::slot(at))
    }

    pub closed spec fn settings(self) -> MoveContext {
        self.context
    }

    pub closed spec fn epoch(self) -> OverlayEpoch {
        self.overlay_epoch
    }

    pub fn context(&self) -> (context: &MoveContext)
        ensures
            *context == self.settings(),
    {
        &self.context
    }

    pub fn is_hard(&self, at: BlockPos) -> (r: bool)
        ensures
            r == self.hard_at(at),
    {
        proof {
            pos::lemma_slots_are_distinct();
        }
        self.hard.contains(at.key())
    }

    pub fn hard_len(&self) -> (n: usize)
        ensures
            n == Set::new(|at: BlockPos| self.hard_at(at)).len(),
            Set::new(|at: BlockPos| self.hard_at(at)).finite(),
    {
        let n: usize = self.hard.len();
        proof {
            use_type_invariant(self);
            pos::lemma_slot_count(Set::new(|at: BlockPos| self.hard_at(at)), self.hard@.dom());
        }
        n
    }

    pub fn overlay_epoch(&self) -> (epoch: OverlayEpoch)
        ensures
            epoch == self.epoch(),
    {
        self.overlay_epoch
    }
}

impl<'a, W: WorldView + ?Sized> WorldView for AppliedOverlay<'a, W> {
    /// A hard cell is a fence, which unlike a solid block cannot become a floor
    /// for the block above, and it blocks feet and head alike.
    open spec fn terrain(&self) -> Terrain {
        let hard = |at: BlockPos| self.hard_at(at);
        let ground = self.ground();
        Terrain {
            kinds: |at: BlockPos|
                if hard(at) {
                    BlockKind::Fence
                } else {
                    ground.kind(at)
                },
            holds: |at: BlockPos|
                !hard(at) && !hard(world::shift(at, 0, 1, 0)) && !hard(world::shift(at, 0, 2, 0))
                    && !hard(world::shift(at, 0, -1, 0)) && ground.stands(at),
        }
    }

    fn block(&self, at: BlockPos) -> (kind: BlockKind) {
        if self.is_hard(at) {
            BlockKind::Fence
        } else {
            self.base.block(at)
        }
    }

    fn standable(&self, at: BlockPos) -> (holds: bool) {
        if self.is_hard(at) || self.is_hard(offset(at, 0, 1, 0)) || self.is_hard(
            offset(at, 0, 2, 0),
        ) || self.is_hard(offset(at, 0, -1, 0)) {
            return false;
        }
        self.base.standable(at)
    }
}

impl DynamicObstacleOverlay {
    /// Freezes the active overlay into a cloned move context and an overlay
    /// world view. The input context is never mutated.
    ///
    /// Built-in movement rules consult the returned [`WorldView`], so hard
    /// entries are impassable. Their maximum avoid toll is also copied into
    /// the context as a defensive signal for custom movement rules. Custom
    /// rules must still honor the supplied world view to guarantee hard
    /// exclusion.
    pub fn apply<'a, W: WorldView + ?Sized>(
        &mut self,
        requested_scope: &WorldScope,
        now_tick: u64,
        viewer: Option<ObstacleOwner>,
        world: &'a W,
        input: &MoveContext,
    ) -> (applied: Result<AppliedOverlay<'a, W>, OverlayApplyError>)
        requires
            old(self).wf(),
        ensures
            final(self).wf(),
            match applied {
                Err(OverlayApplyError::Scope(mismatch)) => {
                    &&& !requested_scope.same(old(self).home())
                    &&& mismatch.expected == old(self).home()
                    &&& mismatch.actual == *requested_scope
                    &&& *final(self) == *old(self)
                },
                Err(OverlayApplyError::Time(error)) => {
                    &&& requested_scope.same(old(self).home())
                    &&& *final(self) == *old(self)
                    &&& if now_tick < old(self).clock() {
                        error == (OverlayTimeError::ClockRegressed {
                            previous: old(self).clock(),
                            requested: now_tick,
                        })
                    } else {
                        error is RevisionExhausted && old(self).generation_at(now_tick) > u64::MAX
                    }
                },
                Ok(view) => {
                    let entries = active_entries(old(self).obstacles(), now_tick);
                    let policy = old(self).policy();
                    &&& requested_scope.same(old(self).home())
                    &&& now_tick >= old(self).clock()
                    &&& old(self).generation_at(now_tick) <= u64::MAX
                    &&& old(self).advanced(*final(self), now_tick)
                    &&& view.ground() == world.terrain()
                    &&& forall|at: BlockPos| #[trigger]
                        view.hard_at(at) <==> seen_at(entries, policy, viewer, now_tick, at)
                            == Some(ObstacleKind::Hard)
                    &&& view.settings() == (MoveContext { avoid: view.settings().avoid, ..*input })
                    &&& view.settings().avoid@ == tolled(
                        input.avoid@,
                        entries,
                        policy,
                        viewer,
                        now_tick,
                    )
                    &&& view.epoch().revision == final(self).generation()
                    &&& lasts_until(entries, policy, viewer, now_tick, view.epoch().valid_until_tick)
                    &&& !view.epoch().expired(now_tick)
                },
            },
    {
        if !requested_scope.is_same(&self.scope) {
            return Err(
                OverlayApplyError::Scope(
                    OverlayScopeMismatch {
                        expected: self.scope.clone(),
                        actual: requested_scope.clone(),
                    },
                ),
            );
        }
        match self.advance_to(now_tick) {
            Ok(_) => {},
            Err(error) => {
                return Err(OverlayApplyError::Time(error));
            },
        }
        let policy: DeadlockPolicy = self.deadlock_policy;
        let mut avoid = input.avoid.duplicate();
        let mut hard: KeyMap<BlockPos> = KeyMap::new();
        let mut valid_until_tick: Option<u64> = None;
        let total: usize = self.entries.len();
        let ghost items = self.entries.items_in_order();
        let ghost entries = self.obstacles();
        let ghost mut done: Map<BlockPos, ObstacleEntry> = Map::empty();
        proof {
            pos::lemma_slots_are_distinct();
            key_map::lemma_items_map(items);
            assert(avoid@ =~= tolled(input.avoid@, done, policy, viewer, now_tick));
        }
        let mut i: usize = 0;
        while i < total
            invariant
                i <= total == items.len(),
                self.wf(),
                policy == self.deadlock_policy,
                items == self.entries.items_in_order(),
                self.entries@ == key_map::items_map(items),
                key_map::keys_increase(items),
                entries == self.obstacles(),
                forall|at: BlockPos| #[trigger]
                    entries.contains_key(at) ==> entries[at].active_at(now_tick),
                forall|at: BlockPos| #[trigger]
                    done.contains_key(at) ==> entries.contains_key(at) && done[at] == entries[at]
                        && (exists|j: int| 0 <= j < i && (#[trigger] items[j]).1.pos == at),
                forall|j: int|
                    0 <= j < i ==> done.contains_key((#[trigger] items[j]).1.pos),
                avoid@ == tolled(input.avoid@, done, policy, viewer, now_tick),
                marked(hard@),
                forall|at: BlockPos|
                    hard@.contains_key(#[trigger] pos::slot(at)) <==> seen_at(
                        done,
                        policy,
                        viewer,
                        now_tick,
                        at,
                    ) == Some(ObstacleKind::Hard),
                lasts_until(done, policy, viewer, now_tick, valid_until_tick),
                valid_until_tick matches Some(tick) ==> now_tick < tick,
            decreases total - i,
        {
            let placed: Placed = *self.entries.value_at(i);
            let effect: Option<ObstacleKind> = placed.entry.effect_for(policy, viewer, now_tick);
            let ghost before = done;
            let ghost until_before = valid_until_tick;
            proof {
                pos::lemma_slots_are_distinct();
                key_map::lemma_items_map(items);
                let key = items[i as int].0;
                assert(self.entries@.contains_key(key) && self.entries@[key] == placed);
                assert(key == pos::slot(placed.pos));
                assert(entries.contains_key(placed.pos));
                assert(!done.contains_key(placed.pos)) by {
                    if done.contains_key(placed.pos) {
                        let j = choose|j: int|
                            0 <= j < i && (#[trigger] items[j]).1.pos == placed.pos;
                        assert(self.entries@.contains_key(items[j].0));
                        assert(items[j].0 == key);
                    }
                }
                done = done.insert(placed.pos, placed.entry);
                lemma_one_more(before, policy, viewer, now_tick, placed.pos, placed.entry);
            }
            match effect {
                None => {},
                Some(ObstacleKind::Hard) => {
                    hard.insert(placed.pos.key(), placed.pos);
                    avoid.insert(placed.pos, u32::MAX);
                },
                Some(ObstacleKind::Soft { penalty }) => {
                    let toll: u32 = match avoid.get(placed.pos) {
                        Some(existing) => existing.saturating_add(penalty),
                        None => penalty,
                    };
                    avoid.insert(placed.pos, toll);
                },
            }
            if let Some(kind) = effect {
                let next_change: u64 = if kind == ObstacleKind::Hard {
                    placed.entry.hard_deadline(policy)
                } else {
                    placed.entry.expires_at_tick
                };
                valid_until_tick =
                match valid_until_tick {
                    Some(tick) if tick <= next_change => Some(tick),
                    _ => Some(next_change),
                };
            }
            proof {
                assert(avoid@ =~= tolled(input.avoid@, done, policy, viewer, now_tick));
                assert(seen_at(done, policy, viewer, now_tick, placed.pos) == effect);
                lemma_lasts_with_one_more(
                    before,
                    policy,
                    viewer,
                    now_tick,
                    until_before,
                    placed.pos,
                    placed.entry,
                );
            }
            i += 1;
        }
        proof {
            assert(done =~= entries) by {
                assert forall|at: BlockPos| entries.contains_key(at) implies done.contains_key(
                    at,
                ) by {
                    let key = pos::slot(at);
                    assert(self.entries@.contains_key(key));
                    key_map::lemma_items_map(items);
                    let j = choose|j: int| 0 <= j < items.len() && (#[trigger] items[j]).0 == key;
                    assert(self.entries@.contains_key(items[j].0));
                    assert(items[j].1.pos == at);
                }
            }
        }
        let mut context = input.clone();
        context.avoid = Arc::new(avoid);
        let view = AppliedOverlay {
            base: world,
            hard,
            context,
            overlay_epoch: OverlayEpoch { revision: self.revision, valid_until_tick },
        };
        proof {
            assert forall|at: BlockPos| #[trigger] view.hard_at(at) <==> seen_at(
                entries,
                policy,
                viewer,
                now_tick,
                at,
            ) == Some(ObstacleKind::Hard) by {
                assert(hard@.contains_key(pos::slot(at)) == view.hard_at(at));
            }
        }
        Ok(view)
    }
}

/// Adding one entry changes what is seen at its position only.
proof fn lemma_one_more(
    before: Map<BlockPos, ObstacleEntry>,
    policy: DeadlockPolicy,
    viewer: Option<ObstacleOwner>,
    now_tick: u64,
    at: BlockPos,
    entry: ObstacleEntry,
)
    ensures
        forall|p: BlockPos|
            #[trigger] seen_at(before.insert(at, entry), policy, viewer, now_tick, p) == if p
                == at {
                entry.effect(policy, viewer, now_tick)
            } else {
                seen_at(before, policy, viewer, now_tick, p)
            },
{
}

/// The earlier of the current expiry and one more change.
spec fn sooner(until: Option<u64>, change: u64) -> Option<u64> {
    match until {
        Some(tick) if tick <= change => Some(tick),
        _ => Some(change),
    }
}

proof fn lemma_lasts_with_one_more(
    before: Map<BlockPos, ObstacleEntry>,
    policy: DeadlockPolicy,
    viewer: Option<ObstacleOwner>,
    now_tick: u64,
    until: Option<u64>,
    at: BlockPos,
    entry: ObstacleEntry,
)
    requires
        !before.contains_key(at),
        lasts_until(before, policy, viewer, now_tick, until),
    ensures
        lasts_until(
            before.insert(at, entry),
            policy,
            viewer,
            now_tick,
            match entry.effect(policy, viewer, now_tick) {
                Some(kind) => sooner(until, entry.next_change(policy, kind) as u64),
                None => until,
            },
        ),
{
    let after = before.insert(at, entry);
    lemma_one_more(before, policy, viewer, now_tick, at, entry);
    let here = seen_at(after, policy, viewer, now_tick, at);
    assert(here == entry.effect(policy, viewer, now_tick));
    if until is Some {
        let witness = choose|p: BlockPos|
            (#[trigger] seen_at(before, policy, viewer, now_tick, p)) is Some && until->0
                == before[p].next_change(policy, seen_at(before, policy, viewer, now_tick, p)->0);
        assert(witness != at);
        assert(seen_at(after, policy, viewer, now_tick, witness) == seen_at(
            before,
            policy,
            viewer,
            now_tick,
            witness,
        ));
    }
    assert forall|p: BlockPos|
        p != at && (#[trigger] seen_at(after, policy, viewer, now_tick, p)) is Some implies after[p]
        == before[p] && seen_at(before, policy, viewer, now_tick, p) is Some by {}
}

} // verus!
