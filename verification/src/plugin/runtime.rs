//! The in-memory bounded learner.
use vstd::prelude::*;

use crate::adaptive::context;
use crate::adaptive::context::{AdaptiveRegime, ProfileKey};
use crate::adaptive::digest;
use crate::adaptive::estimate::AdaptiveSettings;
use crate::adaptive::model::CostModelSnapshot;
use crate::adaptive::observation::{MoveObservation, NonceAllocator, MAX_OBSERVATION_NONCE};
use crate::adaptive::profile;
use crate::adaptive::profile::AdaptiveProfile;
use crate::adaptive::promotion::{GuardSignal, PromotionError, PromotionReport};
use crate::adaptive::telemetry::ProfileError;
use crate::local::moves::MovementCosts;

verus! {

pub const MAX_ADAPTIVE_PROFILES: usize = 32;

#[derive(Clone, Copy, PartialEq, Eq, Structural, Debug)]
pub enum ProfileInstallPolicy {
    RejectExisting,
    ReplaceExisting,
}

/// In-memory bounded learner. Disk persistence and telemetry remain explicit
/// maintenance-thread operations.
pub struct AdaptivePathfinderRuntime {
    /// At most one profile per key.
    pub profiles: Vec<AdaptiveProfile>,
    pub dropped: u64,
}

/// The content of an [`AdaptivePathfinderRuntime`].
#[verifier::ext_equal]
pub struct RuntimeState {
    pub profiles: Map<context::ProfileName, profile::ProfileState>,
    pub dropped: u64,
}

/// Whether no two profiles share a key.
pub open spec fn distinct(profiles: Seq<AdaptiveProfile>) -> bool {
    forall|i: int, j: int|
        0 <= i < j < profiles.len() ==> (#[trigger] profiles[i]).key@ != (
        #[trigger] profiles[j]).key@
}

pub open spec fn holds_key(profiles: Seq<AdaptiveProfile>, key: context::ProfileName) -> bool {
    exists|i: int| 0 <= i < profiles.len() && (#[trigger] profiles[i]).key@ == key
}

/// Where a key's profile stands.
pub open spec fn place_of(profiles: Seq<AdaptiveProfile>, key: context::ProfileName) -> int {
    choose|i: int| 0 <= i < profiles.len() && (#[trigger] profiles[i]).key@ == key
}

pub open spec fn by_key(profiles: Seq<AdaptiveProfile>) -> Map<
    context::ProfileName,
    profile::ProfileState,
> {
    Map::new(
        |key: context::ProfileName| holds_key(profiles, key),
        |key: context::ProfileName| profiles[place_of(profiles, key)]@,
    )
}

impl View for AdaptivePathfinderRuntime {
    type V = RuntimeState;

    open spec fn view(&self) -> RuntimeState {
        RuntimeState { profiles: by_key(self.profiles@), dropped: self.dropped }
    }
}

proof fn lemma_place(profiles: Seq<AdaptiveProfile>, i: int)
    requires
        distinct(profiles),
        0 <= i < profiles.len(),
    ensures
        by_key(profiles).contains_key(profiles[i].key@),
        by_key(profiles)[profiles[i].key@] == profiles[i]@,
        place_of(profiles, profiles[i].key@) == i,
{
    let found = place_of(profiles, profiles[i].key@);
    if found < i {
        assert(profiles[found].key@ != profiles[i].key@);
    } else if i < found {
        assert(profiles[i].key@ != profiles[found].key@);
    }
}

proof fn lemma_count(profiles: Seq<AdaptiveProfile>)
    requires
        distinct(profiles),
    ensures
        by_key(profiles).dom().finite(),
        by_key(profiles).dom().len() == profiles.len(),
{
    let keys = Seq::new(profiles.len(), |i: int| profiles[i].key@);
    assert(keys.no_duplicates()) by {
        assert forall|i: int, j: int|
            0 <= i < keys.len() && 0 <= j < keys.len() && i != j implies keys[i] != keys[j] by {
            if i < j {
                assert(profiles[i].key@ != profiles[j].key@);
            } else {
                assert(profiles[j].key@ != profiles[i].key@);
            }
        }
    }
    keys.unique_seq_to_set();
    assert(by_key(profiles).dom() =~= keys.to_set()) by {
        assert forall|key: context::ProfileName| keys.to_set().contains(key) implies holds_key(
            profiles,
            key,
        ) by {
            let i = choose|i: int| 0 <= i < keys.len() && keys[i] == key;
            assert(profiles[i].key@ == key);
        }
        assert forall|key: context::ProfileName| holds_key(profiles, key) implies keys.to_set().contains(key) by {
            let i = place_of(profiles, key);
            assert(keys[i] == key);
        }
    }
}

proof fn lemma_pushed(profiles: Seq<AdaptiveProfile>, added: AdaptiveProfile)
    requires
        distinct(profiles),
        !holds_key(profiles, added.key@),
    ensures
        distinct(profiles.push(added)),
        by_key(profiles.push(added)) == by_key(profiles).insert(added.key@, added@),
{
    let after = profiles.push(added);
    assert(distinct(after)) by {
        assert forall|i: int, j: int| 0 <= i < j < after.len() implies (
        #[trigger] after[i]).key@ != (#[trigger] after[j]).key@ by {
            if j == profiles.len() {
                assert(profiles[i].key@ != added.key@);
            } else {
                assert(profiles[i].key@ != profiles[j].key@);
            }
        }
    }
    assert forall|key: context::ProfileName| holds_key(after, key) <==> (holds_key(profiles, key)
        || key == added.key@) by {
        if holds_key(after, key) {
            let i = place_of(after, key);
            if i < profiles.len() {
                assert(profiles[i].key@ == key);
            }
        }
        if holds_key(profiles, key) {
            let i = place_of(profiles, key);
            assert(after[i].key@ == key);
        }
        assert(after[profiles.len() as int].key@ == added.key@);
    }
    assert forall|key: context::ProfileName| holds_key(after, key) implies by_key(after)[key]
        == by_key(profiles).insert(added.key@, added@)[key] by {
        let i = place_of(after, key);
        lemma_place(after, i);
        if i < profiles.len() {
            lemma_place(profiles, i);
            assert(profiles[i].key@ != added.key@);
        }
    }
    assert(by_key(after) =~= by_key(profiles).insert(added.key@, added@));
}

proof fn lemma_replaced(profiles: Seq<AdaptiveProfile>, i: int, with: AdaptiveProfile)
    requires
        distinct(profiles),
        0 <= i < profiles.len(),
        with.key@ == profiles[i].key@,
    ensures
        distinct(profiles.update(i, with)),
        by_key(profiles.update(i, with)) == by_key(profiles).insert(with.key@, with@),
{
    let after = profiles.update(i, with);
    assert(forall|k: int| 0 <= k < after.len() ==> (#[trigger] after[k]).key@ == profiles[k].key@);
    assert forall|key: context::ProfileName| holds_key(after, key) <==> holds_key(profiles, key) by {
        if holds_key(after, key) {
            assert(profiles[place_of(after, key)].key@ == key);
        }
        if holds_key(profiles, key) {
            assert(after[place_of(profiles, key)].key@ == key);
        }
    }
    assert forall|key: context::ProfileName| holds_key(after, key) implies by_key(after)[key]
        == by_key(profiles).insert(with.key@, with@)[key] by {
        let k = place_of(after, key);
        lemma_place(after, k);
        lemma_place(profiles, k);
        if k != i && key == with.key@ {
            lemma_place(profiles, i);
        }
    }
    lemma_place(profiles, i);
    assert(by_key(after) =~= by_key(profiles).insert(with.key@, with@));
}

impl RuntimeState {
    /// The profile of a key; a key not seen yet has a fresh one.
    pub open spec fn held(self, key: context::ProfileName) -> profile::ProfileState {
        if self.profiles.contains_key(key) {
            self.profiles[key]
        } else {
            profile::fresh(key)
        }
    }

    /// Whether there is no room for a key.
    pub open spec fn refuses(self, key: context::ProfileName) -> bool {
        !self.profiles.contains_key(key) && self.profiles.dom().len() >= MAX_ADAPTIVE_PROFILES
    }

    /// The learner with one profile set.
    pub open spec fn with(self, state: profile::ProfileState) -> RuntimeState {
        RuntimeState { profiles: self.profiles.insert(state.key, state), ..self }
    }

    /// The learner once it counted a drop. The counter wraps.
    pub open spec fn counted(self) -> RuntimeState {
        RuntimeState {
            dropped: if self.dropped == u64::MAX {
                0
            } else {
                (self.dropped + 1) as u64
            },
            ..self
        }
    }
}

impl AdaptivePathfinderRuntime {
    pub open spec fn wf(self) -> bool {
        distinct(self.profiles@) && self.profiles@.len() <= MAX_ADAPTIVE_PROFILES
    }

    pub fn allocate_journey_id(&self, nonces: &mut NonceAllocator) -> (id: u64)
        ensures
            if old(nonces).upcoming() < MAX_OBSERVATION_NONCE {
                id == old(nonces).upcoming() && final(nonces).upcoming() == old(
                    nonces,
                ).upcoming() + 1
            } else {
                id == 0 && final(nonces).upcoming() == old(nonces).upcoming()
            },
    {
        nonces.next_observation_nonce()
    }

    fn locate(&self, key: &ProfileKey) -> (place: Option<usize>)
        requires
            self.wf(),
        ensures
            match place {
                Some(i) => {
                    &&& i < self.profiles@.len()
                    &&& self.profiles@[i as int].key@ == key@
                    &&& self@.profiles.contains_key(key@)
                    &&& self@.profiles[key@] == self.profiles@[i as int]@
                },
                None => !self@.profiles.contains_key(key@) && !holds_key(self.profiles@, key@),
            },
    {
        let mut i: usize = 0;
        while i < self.profiles.len()
            invariant
                self.wf(),
                i <= self.profiles@.len(),
                forall|k: int| 0 <= k < i ==> (#[trigger] self.profiles@[k]).key@ != key@,
            decreases self.profiles@.len() - i,
        {
            if self.profiles[i].key.is_same(key) {
                proof {
                    lemma_place(self.profiles@, i as int);
                }
                return Some(i);
            }
            i += 1;
        }
        None
    }

    /// The place of a key's profile, made fresh if there is room for it.
    fn entry(&mut self, key: &ProfileKey) -> (place: Option<usize>)
        requires
            old(self).wf(),
        ensures
            final(self).wf(),
            match place {
                Some(i) => {
                    &&& !old(self)@.refuses(key@)
                    &&& i < final(self).profiles@.len()
                    &&& final(self).profiles@[i as int]@ == old(self)@.held(key@)
                    &&& final(self)@ == old(self)@.with(old(self)@.held(key@))
                    &&& final(self).profiles@[i as int].key@ == key@
                },
                None => old(self)@.refuses(key@) && *final(self) == *old(self),
            },
    {
        if let Some(i) = self.locate(key) {
            assert(self@ =~= old(self)@.with(old(self)@.held(key@)));
            return Some(i);
        }
        proof {
            lemma_count(self.profiles@);
        }
        if self.profiles.len() >= MAX_ADAPTIVE_PROFILES {
            return None;
        }
        let i: usize = self.profiles.len();
        let made = AdaptiveProfile::new(key.clone());
        proof {
            lemma_pushed(self.profiles@, made);
        }
        self.profiles.push(made);
        Some(i)
    }

    fn count_drop(&mut self)
        ensures
            final(self)@ == old(self)@.counted(),
            final(self).profiles == old(self).profiles,
    {
        self.dropped = self.dropped.wrapping_add(1);
    }

    /// Freezes a key's models for one leg. Without room for the key the leg
    /// gets the baseline model and the miss is counted.
    pub fn snapshot(
        &mut self,
        key: &ProfileKey,
        baseline: MovementCosts,
        settings: &AdaptiveSettings,
        regime: &AdaptiveRegime,
    ) -> (snapshot: CostModelSnapshot)
        requires
            old(self).wf(),
        ensures
            final(self).wf(),
            profile::freezes(
                old(self)@.held(key@),
                baseline,
                *settings,
                regime@,
                digest::short_hash(digest::costs_bytes(baseline)),
                snapshot,
            ),
            final(self)@ == if old(self)@.refuses(key@) {
                old(self)@.counted()
            } else {
                old(self)@.with(old(self)@.held(key@))
            },
    {
        match self.entry(key) {
            Some(i) => self.profiles[i].snapshot(baseline, settings, regime),
            None => {
                self.count_drop();
                unlearned_snapshot(key, baseline, settings, regime)
            },
        }
    }

    /// Learns from one observation, if it is valid and its profile has room.
    pub fn try_observe(
        &mut self,
        observation: &MoveObservation,
        settings: &AdaptiveSettings,
    ) -> (accepted: bool)
        requires
            old(self).wf(),
        ensures
            final(self).wf(),
            accepted == old(self)@.learns(*observation),
            final(self)@ == old(self)@.observed(*observation, settings.ranged()),
    {
        if !observation.validate() {
            self.count_drop();
            return false;
        }
        match self.entry(&observation.context.profile) {
            Some(i) => {
                let ghost before = self.profiles@;
                let accepted: bool = self.profiles[i].observe(observation, settings);
                proof {
                    lemma_replaced(before, i as int, self.profiles@[i as int]);
                    assert(self.profiles@ =~= before.update(i as int, self.profiles@[i as int]));
                    assert(self@ =~= old(self)@.observed(*observation, settings.ranged()));
                }
                accepted
            },
            None => {
                self.count_drop();
                false
            },
        }
    }

    /// Promotes a key's candidate.
    pub fn promote(
        &mut self,
        key: &ProfileKey,
        report: &PromotionReport,
        settings: &AdaptiveSettings,
    ) -> (revision: Result<u64, PromotionError>)
        requires
            old(self).wf(),
        ensures
            final(self).wf(),
            if old(self)@.refuses(key@) {
                &&& revision == Err::<u64, PromotionError>(PromotionError::ProfileCapacity)
                &&& final(self)@ == old(self)@
            } else {
                let state = old(self)@.held(key@);
                match profile::promotion_fault(
                    state,
                    *report,
                    settings.ranged(),
                    digest::short_hash(profile::candidate_bytes(state, settings.ranged())),
                ) {
                    Some(fault) => {
                        &&& revision == Err::<u64, PromotionError>(fault)
                        &&& final(self)@ == old(self)@.with(state)
                    },
                    None => {
                        let promoted = state.promoted(*report, settings.ranged());
                        &&& revision == Ok::<u64, PromotionError>(promoted.active.revision)
                        &&& final(self)@ == old(self)@.with(promoted)
                    },
                }
            },
    {
        match self.entry(key) {
            Some(i) => {
                let ghost before = self.profiles@;
                let revision = self.profiles[i].promote(report, settings);
                proof {
                    lemma_replaced(before, i as int, self.profiles@[i as int]);
                    assert(self.profiles@ =~= before.update(i as int, self.profiles@[i as int]));
                    assert(self@ =~= old(self)@.with(self.profiles@[i as int]@));
                }
                revision
            },
            None => Err(PromotionError::ProfileCapacity),
        }
    }

    /// Takes a key back to its model before the last promotion.
    pub fn rollback(&mut self, key: &ProfileKey, signal: GuardSignal) -> (revision: Result<
        u64,
        PromotionError,
    >)
        requires
            old(self).wf(),
        ensures
            final(self).wf(),
            if old(self)@.refuses(key@) {
                &&& revision == Err::<u64, PromotionError>(PromotionError::ProfileCapacity)
                &&& final(self)@ == old(self)@
            } else {
                let state = old(self)@.held(key@);
                match state.previous {
                    None => {
                        &&& revision == Err::<u64, PromotionError>(PromotionError::NoRollback)
                        &&& final(self)@ == old(self)@.with(state)
                    },
                    Some(_) => if state.active.revision == u64::MAX {
                        &&& revision == Err::<u64, PromotionError>(PromotionError::RevisionOverflow)
                        &&& final(self)@ == old(self)@.with(
                            (profile::ProfileState { previous: None, ..state }),
                        )
                    } else {
                        &&& revision == Ok::<u64, PromotionError>(
                            state.rolled_back().active.revision,
                        )
                        &&& final(self)@ == old(self)@.with(state.rolled_back())
                    },
                }
            },
    {
        match self.entry(key) {
            Some(i) => {
                let ghost before = self.profiles@;
                let revision = self.profiles[i].rollback(signal);
                proof {
                    lemma_replaced(before, i as int, self.profiles@[i as int]);
                    assert(self.profiles@ =~= before.update(i as int, self.profiles@[i as int]));
                    assert(self@ =~= old(self)@.with(self.profiles@[i as int]@));
                }
                revision
            },
            None => Err(PromotionError::ProfileCapacity),
        }
    }

    pub fn profile(&self, key: &ProfileKey) -> (found: Option<AdaptiveProfile>)
        requires
            self.wf(),
        ensures
            match found {
                Some(profile) => self@.profiles.contains_key(key@) && profile@
                    == self@.profiles[key@],
                None => !self@.profiles.contains_key(key@),
            },
    {
        match self.locate(key) {
            Some(i) => Some(self.profiles[i].clone()),
            None => None,
        }
    }

    /// Installs a fully validated profile. Callers must choose explicitly
    /// whether an existing in-memory profile may be replaced. The profile it
    /// replaced is returned.
    pub fn install_profile(
        &mut self,
        profile: AdaptiveProfile,
        policy: ProfileInstallPolicy,
        nonces: &mut NonceAllocator,
    ) -> (installed: Result<Option<AdaptiveProfile>, ProfileError>)
        requires
            old(self).wf(),
        ensures
            final(self).wf(),
            match install_fault(old(self)@, profile@, policy) {
                Some(fault) => {
                    &&& installed matches Err(error) && error == fault
                    &&& final(self)@ == old(self)@
                    &&& final(nonces).upcoming() == old(nonces).upcoming()
                },
                None => {
                    &&& installed is Ok
                    &&& final(self)@ == old(self)@.with(profile@)
                    &&& match installed->Ok_0 {
                        Some(replaced) => old(self)@.profiles.contains_key(profile@.key)
                            && replaced@ == old(self)@.profiles[profile@.key],
                        None => !old(self)@.profiles.contains_key(profile@.key),
                    }
                    &&& final(nonces).upcoming() == if old(nonces).upcoming()
                        > profile@.high_water {
                        old(nonces).upcoming() as int
                    } else {
                        profile@.high_water + 1
                    }
                },
            },
    {
        if !profile.validate() {
            return Err(ProfileError::Invalid);
        }
        proof {
            lemma_count(self.profiles@);
        }
        let place = self.locate(&profile.key);
        if place.is_some() && policy == ProfileInstallPolicy::RejectExisting {
            return Err(ProfileError::AlreadyExists);
        }
        if place.is_none() && self.profiles.len() >= MAX_ADAPTIVE_PROFILES {
            return Err(ProfileError::Capacity);
        }
        if let Err(error) = profile.prepare_nonce_allocator(nonces) {
            return Err(error);
        }
        match place {
            Some(i) => {
                proof {
                    lemma_replaced(self.profiles@, i as int, profile);
                }
                let mut kept = profile;
                std::mem::swap(&mut self.profiles[i], &mut kept);
                Ok(Some(kept))
            },
            None => {
                proof {
                    lemma_pushed(self.profiles@, profile);
                }
                self.profiles.push(profile);
                Ok(None)
            },
        }
    }

    pub fn dropped_observations(&self) -> (dropped: u64)
        ensures
            dropped == self@.dropped,
    {
        self.dropped
    }
}

impl Default for AdaptivePathfinderRuntime {
    fn default() -> (runtime: AdaptivePathfinderRuntime)
        ensures
            runtime.wf(),
            runtime@ == (RuntimeState { profiles: Map::empty(), dropped: 0 }),
    {
        let runtime = AdaptivePathfinderRuntime { profiles: Vec::new(), dropped: 0 };
        assert(runtime@.profiles =~= Map::empty());
        runtime
    }
}

/// The snapshot of a leg that cannot wait for the learner, or that the learner
/// has no room for: a fresh profile has no active model, so this is a safe
/// baseline.
pub fn unlearned_snapshot(
    key: &ProfileKey,
    baseline: MovementCosts,
    settings: &AdaptiveSettings,
    regime: &AdaptiveRegime,
) -> (snapshot: CostModelSnapshot)
    ensures
        profile::freezes(
            profile::fresh(key@),
            baseline,
            *settings,
            regime@,
            digest::short_hash(digest::costs_bytes(baseline)),
            snapshot,
        ),
        snapshot.active_model() == Map::<u128, u32>::empty(),
        snapshot.candidate_model() == Map::<u128, u32>::empty(),
{
    AdaptiveProfile::new(key.clone()).snapshot(baseline, settings, regime)
}

/// Why a profile is not installed.
pub open spec fn install_fault(
    runtime: RuntimeState,
    state: profile::ProfileState,
    policy: ProfileInstallPolicy,
) -> Option<ProfileError> {
    let exists = runtime.profiles.contains_key(state.key);
    if !state.valid() {
        Some(ProfileError::Invalid)
    } else if exists && policy == ProfileInstallPolicy::RejectExisting {
        Some(ProfileError::AlreadyExists)
    } else if runtime.refuses(state.key) {
        Some(ProfileError::Capacity)
    } else if state.high_water >= MAX_OBSERVATION_NONCE {
        Some(ProfileError::NonceExhausted)
    } else {
        None
    }
}

impl RuntimeState {
    /// Whether an observation is learned from.
    pub open spec fn learns(self, observation: MoveObservation) -> bool {
        let key = observation.context.profile@;
        &&& observation.valid()
        &&& !self.refuses(key)
        &&& self.held(key).admits(observation)
        &&& self.held(key).can_count(observation)
    }

    /// The learner after an observation.
    pub open spec fn observed(
        self,
        observation: MoveObservation,
        settings: AdaptiveSettings,
    ) -> RuntimeState {
        let key = observation.context.profile@;
        let state = self.held(key);
        if !observation.valid() || self.refuses(key) {
            self.counted()
        } else if state.admits(observation) && state.can_count(observation) {
            self.with(state.learned(observation, settings))
        } else if state.admits(observation) {
            self.with(state.under_regime(observation))
        } else {
            self.with(state)
        }
    }
}

impl RuntimeState {
    /// Bounded, and every profile stands under its own key.
    pub open spec fn valid(self) -> bool {
        &&& self.profiles.dom().finite()
        &&& self.profiles.dom().len() <= MAX_ADAPTIVE_PROFILES
        &&& forall|key: context::ProfileName| #[trigger]
            self.profiles.contains_key(key) ==> self.profiles[key].key == key
    }
}

/// A well-formed learner is within its bound.
pub proof fn learners_are_bounded(runtime: AdaptivePathfinderRuntime)
    requires
        runtime.wf(),
    ensures
        runtime@.valid(),
{
    lemma_count(runtime.profiles@);
}

/// The learner stays within its bound whatever it observes, and an invalid
/// observation makes no profile.
pub proof fn learners_stay_within_capacity(
    runtime: RuntimeState,
    observation: MoveObservation,
    settings: AdaptiveSettings,
)
    requires
        runtime.valid(),
    ensures
        runtime.observed(observation, settings).valid(),
        !observation.valid() ==> runtime.observed(observation, settings).profiles
            == runtime.profiles,
{
    assert(runtime.held(observation.context.profile@).key == observation.context.profile@);
}

/// Learning in one profile leaves every other one alone.
pub proof fn profiles_learn_alone(
    runtime: RuntimeState,
    observation: MoveObservation,
    settings: AdaptiveSettings,
    other: context::ProfileName,
)
    requires
        runtime.valid(),
        other != observation.context.profile@,
    ensures
        runtime.observed(observation, settings).held(other) == runtime.held(other),
{
}

} // verus!
