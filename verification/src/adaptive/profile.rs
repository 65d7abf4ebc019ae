//! A learned profile: what was observed, what is promoted, and how one becomes
//! the other.
use vstd::bytes;
use vstd::prelude::*;
use vstd::utf8;

use crate::adaptive::context;
use crate::adaptive::context::{AdaptiveRegime, ObservationId, ProfileKey, ADAPTIVE_SCHEMA_VERSION};
use crate::adaptive::digest;
use crate::adaptive::digest::{
    encoding_of, hash_bytes, movement_costs_hash, put_text, put_u16, put_u32, put_u64,
};
use crate::adaptive::estimate;
use crate::adaptive::estimate::{AdaptiveSettings, PrimitiveEstimate, MAX_PROFILE_BUCKETS};
use crate::adaptive::features;
use crate::adaptive::features::FeatureKey;
use crate::adaptive::model::{AdaptiveMode, CostModelSnapshot, MULTIPLIER_ONE};
use crate::adaptive::observation::{MoveObservation, NonceAllocator, MAX_OBSERVATION_NONCE};
use crate::adaptive::promotion;
use crate::adaptive::promotion::{GuardSignal, PromotionError, PromotionReport};
use crate::adaptive::telemetry::ProfileError;
use crate::arith;
use crate::key_map;
use crate::key_map::KeyMap;
use crate::local::moves::MovementCosts;

verus! {

pub const MAX_RECENT_COMPLETIONS: u64 = 4_096;

/// The most buckets a model holds: every exact one and one per primitive.
pub const MAX_MODEL_BUCKETS: usize = 267;

/// A model and the telemetry it was made from.
#[derive(Debug)]
pub struct PromotedModel {
    pub revision: u64,
    pub source_data_revision: u64,
    /// The multiplier of each feature key, in millionths.
    pub multipliers: KeyMap<u32>,
}

/// The content of a [`PromotedModel`].
#[verifier::ext_equal]
pub struct ModelState {
    pub revision: u64,
    pub source_data_revision: u64,
    pub multipliers: Map<u128, u32>,
}

/// The model of a profile that nothing was promoted in.
pub open spec fn no_model() -> ModelState {
    ModelState { revision: 0, source_data_revision: 0, multipliers: Map::empty() }
}

impl View for PromotedModel {
    type V = ModelState;

    open spec fn view(&self) -> ModelState {
        ModelState {
            revision: self.revision,
            source_data_revision: self.source_data_revision,
            multipliers: self.multipliers@,
        }
    }
}

impl PromotedModel {
    fn empty() -> (model: PromotedModel)
        ensures
            model@ == no_model(),
    {
        PromotedModel { revision: 0, source_data_revision: 0, multipliers: KeyMap::new() }
    }
}

impl Clone for PromotedModel {
    fn clone(&self) -> (copy: PromotedModel)
        ensures
            copy@ == self@,
    {
        PromotedModel {
            revision: self.revision,
            source_data_revision: self.source_data_revision,
            multipliers: self.multipliers.duplicate(),
        }
    }
}

/// Everything learned for one profile key.
#[derive(Debug)]
pub struct AdaptiveProfile {
    pub schema: u16,
    pub key: ProfileKey,
    /// Accepted telemetry revision.
    pub data_revision: u64,
    pub regime: Option<AdaptiveRegime>,
    pub estimates: KeyMap<PrimitiveEstimate>,
    pub active: PromotedModel,
    pub previous: Option<PromotedModel>,
    pub recent_completions: KeyMap<ObservationId>,
    pub replay_high_water: u64,
    pub last_evaluation_id: u64,
}

/// The content of an [`AdaptiveProfile`].
#[verifier::ext_equal]
pub struct ProfileState {
    pub schema: u16,
    pub key: context::ProfileName,
    pub data_revision: u64,
    pub regime: Option<context::Regime>,
    pub estimates: Map<u128, PrimitiveEstimate>,
    pub active: ModelState,
    pub previous: Option<ModelState>,
    pub recent: Map<u128, ObservationId>,
    pub high_water: u64,
    pub last_evaluation_id: u64,
}

impl View for AdaptiveProfile {
    type V = ProfileState;

    open spec fn view(&self) -> ProfileState {
        ProfileState {
            schema: self.schema,
            key: self.key@,
            data_revision: self.data_revision,
            regime: match self.regime {
                Some(regime) => Some(regime@),
                None => None,
            },
            estimates: self.estimates@,
            active: self.active@,
            previous: match self.previous {
                Some(model) => Some(model@),
                None => None,
            },
            recent: self.recent_completions@,
            high_water: self.replay_high_water,
            last_evaluation_id: self.last_evaluation_id,
        }
    }
}

/// Nonces up to this one are too old to be accepted.
pub open spec fn replay_floor(high_water: u64) -> int {
    if high_water >= MAX_RECENT_COMPLETIONS {
        high_water - MAX_RECENT_COMPLETIONS
    } else {
        0
    }
}

fn floor_of(high_water: u64) -> (floor: u64)
    ensures
        floor == replay_floor(high_water),
{
    high_water.saturating_sub(MAX_RECENT_COMPLETIONS)
}

/// The bucket of a primitive whatever its surroundings.
pub open spec fn fallback_slot(observation: MoveObservation) -> u128 {
    features::fallback_key(observation.primitive) as u128
}

/// The bucket of a primitive in its surroundings.
pub open spec fn exact_slot(observation: MoveObservation) -> u128 {
    features::exact_key(observation.primitive, observation.features) as u128
}

/// The exact buckets among some keys.
pub open spec fn exact_slots(keys: Set<u128>) -> Set<u128> {
    keys.filter(|key: u128| features::key_is_exact(key as u64))
}

/// Whether `a` is worth less than `b`: fewer trials, then older, then the
/// smaller key.
pub open spec fn less_useful(
    estimates: Map<u128, PrimitiveEstimate>,
    a: u128,
    b: u128,
) -> bool {
    let (x, y) = (estimates[a], estimates[b]);
    x.trial_count() < y.trial_count() || (x.trial_count() == y.trial_count() && (x.last_sequence
        < y.last_sequence || (x.last_sequence == y.last_sequence && a < b)))
}

/// Whether a key is the exact bucket worth least.
pub open spec fn is_least_useful(estimates: Map<u128, PrimitiveEstimate>, key: u128) -> bool {
    &&& exact_slots(estimates.dom()).contains(key)
    &&& forall|other: u128| #[trigger]
        exact_slots(estimates.dom()).contains(other) ==> other == key || less_useful(
            estimates,
            key,
            other,
        )
}

pub open spec fn least_useful(estimates: Map<u128, PrimitiveEstimate>) -> u128 {
    choose|key: u128| is_least_useful(estimates, key)
}

/// The estimates with room for one more exact bucket, if it needs one.
pub open spec fn with_room(
    estimates: Map<u128, PrimitiveEstimate>,
    slot: u128,
    max_buckets: usize,
) -> Map<u128, PrimitiveEstimate> {
    if !estimates.contains_key(slot) && exact_slots(estimates.dom()).len() >= max_buckets {
        estimates.remove(least_useful(estimates))
    } else {
        estimates
    }
}

pub open spec fn estimate_at(estimates: Map<u128, PrimitiveEstimate>, slot: u128) -> PrimitiveEstimate {
    if estimates.contains_key(slot) {
        estimates[slot]
    } else {
        estimate::fresh_estimate()
    }
}

/// One bucket after an observation.
pub open spec fn taught_at(
    estimates: Map<u128, PrimitiveEstimate>,
    slot: u128,
    observation: MoveObservation,
    arrival: u64,
) -> Map<u128, PrimitiveEstimate> {
    estimates.insert(
        slot,
        estimate::estimate_after(estimate_at(estimates, slot), observation, arrival),
    )
}

/// Both buckets of an observation after it.
pub open spec fn taught(
    estimates: Map<u128, PrimitiveEstimate>,
    observation: MoveObservation,
    max_buckets: usize,
    arrival: u64,
) -> Map<u128, PrimitiveEstimate> {
    taught_at(
        taught_at(
            with_room(estimates, exact_slot(observation), max_buckets),
            fallback_slot(observation),
            observation,
            arrival,
        ),
        exact_slot(observation),
        observation,
        arrival,
    )
}

/// The remembered completions once one more is accepted: those above the
/// replay floor.
pub open spec fn remembered(
    recent: Map<u128, ObservationId>,
    id: ObservationId,
    high_water: u64,
) -> Map<u128, ObservationId> {
    Map::new(
        |nonce: u128|
            (recent.contains_key(nonce) || nonce == id.nonce) && nonce > replay_floor(high_water),
        |nonce: u128|
            if nonce == id.nonce {
                id
            } else {
                recent[nonce]
            },
    )
}

impl ProfileState {
    /// Whether an observation belongs to this profile and is not a replay.
    pub open spec fn admits(self, observation: MoveObservation) -> bool {
        &&& self.data_revision < u64::MAX
        &&& observation.valid()
        &&& observation.context.profile@ == self.key
        &&& self.regime matches Some(regime) ==> regime == observation.context.regime_view()
        &&& observation.id.nonce > replay_floor(self.high_water)
        &&& !self.recent.contains_key(observation.id.nonce as u128)
    }

    /// Whether both buckets of an observation can count one more.
    pub open spec fn can_count(self, observation: MoveObservation) -> bool {
        &&& self.estimates.contains_key(fallback_slot(observation))
            ==> self.estimates[fallback_slot(observation)].has_room()
        &&& self.estimates.contains_key(exact_slot(observation))
            ==> self.estimates[exact_slot(observation)].has_room()
    }

    /// The profile under the regime of an observation, if it had none.
    pub open spec fn under_regime(self, observation: MoveObservation) -> ProfileState {
        ProfileState { regime: Some(observation.context.regime_view()), ..self }
    }

    /// The profile after an accepted observation.
    pub open spec fn learned(
        self,
        observation: MoveObservation,
        settings: AdaptiveSettings,
    ) -> ProfileState {
        let high_water = if observation.id.nonce > self.high_water {
            observation.id.nonce
        } else {
            self.high_water
        };
        ProfileState {
            regime: Some(observation.context.regime_view()),
            estimates: taught(
                self.estimates,
                observation,
                settings.max_buckets,
                (self.data_revision + 1) as u64,
            ),
            data_revision: (self.data_revision + 1) as u64,
            recent: remembered(self.recent, observation.id, high_water),
            high_water,
            ..self
        }
    }
}

proof fn lemma_least_useful_is_unique(
    estimates: Map<u128, PrimitiveEstimate>,
    a: u128,
    b: u128,
)
    requires
        is_least_useful(estimates, a),
        is_least_useful(estimates, b),
    ensures
        a == b,
{
}

proof fn lemma_slots_differ(observation: MoveObservation)
    requires
        observation.primitive.builtin(),
        observation.features.valid(),
    ensures
        fallback_slot(observation) != exact_slot(observation),
        !features::key_is_exact(fallback_slot(observation) as u64),
        features::key_is_exact(exact_slot(observation) as u64),
        features::key_is_valid(fallback_slot(observation) as u64),
        features::key_is_valid(exact_slot(observation) as u64),
{
    features::built_in_contexts_have_valid_keys(observation.primitive, observation.features);
}

/// A profile that has learned nothing.
pub open spec fn fresh(key: context::ProfileName) -> ProfileState {
    ProfileState {
        schema: ADAPTIVE_SCHEMA_VERSION,
        key,
        data_revision: 0,
        regime: None,
        estimates: Map::empty(),
        active: no_model(),
        previous: None,
        recent: Map::empty(),
        high_water: 0,
        last_evaluation_id: 0,
    }
}

impl Clone for AdaptiveProfile {
    fn clone(&self) -> (copy: AdaptiveProfile)
        ensures
            copy@ == self@,
    {
        AdaptiveProfile {
            schema: self.schema,
            key: self.key.clone(),
            data_revision: self.data_revision,
            regime: match &self.regime {
                Some(regime) => Some(regime.clone()),
                None => None,
            },
            estimates: self.estimates.duplicate(),
            active: self.active.clone(),
            previous: match &self.previous {
                Some(model) => Some(model.clone()),
                None => None,
            },
            recent_completions: self.recent_completions.duplicate(),
            replay_high_water: self.replay_high_water,
            last_evaluation_id: self.last_evaluation_id,
        }
    }
}

impl AdaptiveProfile {
    pub fn new(key: ProfileKey) -> (profile: AdaptiveProfile)
        ensures
            profile@ == fresh(key@),
    {
        AdaptiveProfile {
            schema: ADAPTIVE_SCHEMA_VERSION,
            key,
            data_revision: 0,
            regime: None,
            estimates: KeyMap::new(),
            active: PromotedModel::empty(),
            previous: None,
            recent_completions: KeyMap::new(),
            replay_high_water: 0,
            last_evaluation_id: 0,
        }
    }

    pub fn model_revision(&self) -> (revision: u64)
        ensures
            revision == self@.active.revision,
    {
        self.active.revision
    }

    /// Moves a nonce allocator past every nonce this profile has seen.
    pub fn prepare_nonce_allocator(&self, nonces: &mut NonceAllocator) -> (moved: Result<
        (),
        ProfileError,
    >)
        ensures
            match moved {
                Ok(()) => self@.high_water < MAX_OBSERVATION_NONCE && final(nonces).upcoming()
                    == if old(nonces).upcoming() > self@.high_water {
                    old(nonces).upcoming() as int
                } else {
                    self@.high_water + 1
                },
                Err(error) => {
                    &&& self@.high_water >= MAX_OBSERVATION_NONCE
                    &&& error == ProfileError::NonceExhausted
                    &&& final(nonces).upcoming() == old(nonces).upcoming()
                },
            },
    {
        nonces.ensure_after(self.replay_high_water)
    }

    /// The number of exact buckets.
    fn count_exact(&self) -> (n: usize)
        ensures
            n == exact_slots(self.estimates@.dom()).len(),
            exact_slots(self.estimates@.dom()).finite(),
            n <= self.estimates@.dom().len(),
            self.estimates@.dom().finite(),
    {
        let total: usize = self.estimates.len();
        let ghost items = self.estimates.items_in_order();
        proof {
            key_map::lemma_items_map(items);
            lemma_exact_prefix_none(items);
        }
        let mut n: usize = 0;
        let mut i: usize = 0;
        while i < total
            invariant
                i <= total == items.len(),
                items == self.estimates.items_in_order(),
                key_map::keys_increase(items),
                n <= i,
                n == exact_prefix(items, i as int).len(),
                exact_prefix(items, i as int).finite(),
            decreases total - i,
        {
            let key: u128 = self.estimates.key_at(i);
            proof {
                lemma_exact_prefix_step(items, i as int);
            }
            if FeatureKey(key as u64).is_exact() {
                n += 1;
            }
            i += 1;
        }
        proof {
            key_map::lemma_items_map(items);
            assert(exact_prefix(items, i as int) =~= exact_slots(self.estimates@.dom()));
            vstd::set_lib::lemma_len_subset(
                exact_slots(self.estimates@.dom()),
                self.estimates@.dom(),
            );
        }
        n
    }

    /// Removes the exact bucket worth least, if there is an exact one.
    fn evict_least_useful_exact(&mut self)
        ensures
            if exact_slots(old(self)@.estimates.dom()) == Set::<u128>::empty() {
                final(self)@ == old(self)@
            } else {
                &&& is_least_useful(old(self)@.estimates, least_useful(old(self)@.estimates))
                &&& final(self)@ == (ProfileState {
                    estimates: old(self)@.estimates.remove(least_useful(old(self)@.estimates)),
                    ..old(self)@
                })
            },
    {
        let total: usize = self.estimates.len();
        let ghost items = self.estimates.items_in_order();
        let ghost estimates = self.estimates@;
        proof {
            key_map::lemma_items_map(items);
        }
        let mut victim: Option<u128> = None;
        let mut trials: u32 = 0;
        let mut sequence: u64 = 0;
        let mut i: usize = 0;
        while i < total
            invariant
                i <= total == items.len(),
                items == self.estimates.items_in_order(),
                estimates == self.estimates@,
                estimates == key_map::items_map(items),
                key_map::keys_increase(items),
                *self == *old(self),
                match victim {
                    Some(key) => {
                        &&& exact_slots(estimates.dom()).contains(key)
                        &&& trials == estimates[key].trial_count()
                        &&& sequence == estimates[key].last_sequence
                        &&& i < total ==> key < items[i as int].0
                        &&& forall|j: int|
                            0 <= j < i && features::key_is_exact((#[trigger] items[j]).0 as u64)
                                ==> items[j].0 == key || less_useful(estimates, key, items[j].0)
                    },
                    None => forall|j: int|
                        0 <= j < i ==> !features::key_is_exact((#[trigger] items[j]).0 as u64),
                },
            decreases total - i,
        {
            let key: u128 = self.estimates.key_at(i);
            proof {
                key_map::lemma_items_map(items);
            }
            if FeatureKey(key as u64).is_exact() {
                let candidate: PrimitiveEstimate = *self.estimates.value_at(i);
                let candidate_trials: u32 = candidate.trials();
                let lower: bool = victim.is_none() || candidate_trials < trials || (
                candidate_trials == trials && candidate.last_sequence < sequence);
                if lower {
                    victim = Some(key);
                    trials = candidate_trials;
                    sequence = candidate.last_sequence;
                }
            }
            i += 1;
        }
        proof {
            key_map::lemma_items_map(items);
            if victim is None {
                assert forall|key: u128| !exact_slots(estimates.dom()).contains(key) by {
                    if exact_slots(estimates.dom()).contains(key) {
                        let j = choose|j: int|
                            0 <= j < items.len() && (#[trigger] items[j]).0 == key;
                        assert(features::key_is_exact(items[j].0 as u64));
                    }
                }
                assert(exact_slots(estimates.dom()) =~= Set::<u128>::empty());
            } else {
                let key = victim->0;
                assert(is_least_useful(estimates, key)) by {
                    assert forall|other: u128| #[trigger]
                        exact_slots(estimates.dom()).contains(other) implies other == key
                        || less_useful(estimates, key, other) by {
                        let j = choose|j: int|
                            0 <= j < items.len() && (#[trigger] items[j]).0 == other;
                        assert(features::key_is_exact(items[j].0 as u64));
                    }
                }
                lemma_least_useful_is_unique(estimates, key, least_useful(estimates));
            }
        }
        if let Some(key) = victim {
            self.estimates.remove(key);
        }
    }

    /// Counts an observation in one bucket.
    fn teach(&mut self, slot: u128, observation: &MoveObservation, arrival: u64)
        ensures
            final(self)@ == (ProfileState {
                estimates: taught_at(old(self)@.estimates, slot, *observation, arrival),
                ..old(self)@
            }),
    {
        let mut estimate: PrimitiveEstimate = match self.estimates.get(slot) {
            Some(known) => *known,
            None => PrimitiveEstimate::default(),
        };
        estimate.observe(observation, arrival);
        self.estimates.insert(slot, estimate);
    }

    /// Remembers a completion and forgets those below the replay floor.
    fn remember(&mut self, id: ObservationId)
        ensures
            ({
                let high_water = if id.nonce > old(self)@.high_water {
                    id.nonce
                } else {
                    old(self)@.high_water
                };
                final(self)@ == (ProfileState {
                    recent: remembered(old(self)@.recent, id, high_water),
                    high_water,
                    ..old(self)@
                })
            }),
    {
        self.recent_completions.insert(id.nonce as u128, id);
        if id.nonce > self.replay_high_water {
            self.replay_high_water = id.nonce;
        }
        let floor: u64 = floor_of(self.replay_high_water);
        let mut kept: KeyMap<ObservationId> = KeyMap::new();
        let total: usize = self.recent_completions.len();
        let ghost items = self.recent_completions.items_in_order();
        let ghost all = self.recent_completions@;
        proof {
            key_map::lemma_items_map(items);
        }
        let mut i: usize = 0;
        while i < total
            invariant
                i <= total == items.len(),
                items == self.recent_completions.items_in_order(),
                all == self.recent_completions@,
                all == key_map::items_map(items),
                key_map::keys_increase(items),
                forall|key: u128| #[trigger]
                    kept@.contains_key(key) ==> all.contains_key(key) && kept@[key] == all[key]
                        && key > floor,
                forall|j: int|
                    0 <= j < i && (#[trigger] items[j]).0 > floor ==> kept@.contains_key(
                        items[j].0,
                    ),
            decreases total - i,
        {
            proof {
                key_map::lemma_items_map(items);
            }
            let key: u128 = self.recent_completions.key_at(i);
            if key > floor as u128 {
                kept.insert(key, *self.recent_completions.value_at(i));
            }
            i += 1;
        }
        proof {
            key_map::lemma_items_map(items);
            let wanted = remembered(old(self)@.recent, id, self.replay_high_water);
            assert forall|key: u128| #[trigger] wanted.contains_key(key) implies kept@.contains_key(
                key,
            ) by {
                assert(all.contains_key(key));
                let j = choose|j: int| 0 <= j < items.len() && (#[trigger] items[j]).0 == key;
                assert(items[j].0 > floor);
            }
            assert(kept@ =~= wanted);
        }
        self.recent_completions = kept;
    }

    /// Records one terminal observation. Replays and duplicate completions are
    /// rejected before they can affect any estimate.
    pub fn observe(&mut self, observation: &MoveObservation, settings: &AdaptiveSettings) -> (
    accepted: bool)
        ensures
            accepted == (old(self)@.admits(*observation) && old(self)@.can_count(*observation)),
            final(self)@ == if accepted {
                old(self)@.learned(*observation, settings.ranged())
            } else if old(self)@.admits(*observation) {
                old(self)@.under_regime(*observation)
            } else {
                old(self)@
            },
    {
        let settings = settings.validated();
        if self.data_revision == u64::MAX {
            return false;
        }
        let arrival: u64 = self.data_revision + 1;
        if !observation.validate() || !observation.context.profile.is_same(&self.key) {
            return false;
        }
        let regime = observation.context.regime();
        let foreign: bool = match &self.regime {
            Some(known) => !known.is_same(&regime),
            None => false,
        };
        if foreign || observation.id.nonce <= floor_of(self.replay_high_water)
            || self.recent_completions.contains(observation.id.nonce as u128) {
            return false;
        }
        self.regime = Some(regime);
        let ghost admitted = self@;
        assert(admitted == old(self)@.under_regime(*observation));
        let fallback: u128 = FeatureKey::fallback(observation.primitive).0 as u128;
        let exact: u128 = FeatureKey::exact(observation.primitive, observation.features).0 as u128;
        proof {
            lemma_slots_differ(*observation);
        }
        let fallback_full: bool = match self.estimates.get(fallback) {
            Some(estimate) => !estimate.can_observe(),
            None => false,
        };
        let exact_full: bool = match self.estimates.get(exact) {
            Some(estimate) => !estimate.can_observe(),
            None => false,
        };
        if fallback_full || exact_full {
            return false;
        }
        if !self.estimates.contains(exact) && self.count_exact() >= settings.max_buckets {
            self.evict_least_useful_exact();
        }
        self.teach(fallback, observation, arrival);
        self.teach(exact, observation, arrival);
        self.data_revision = arrival;
        self.remember(observation.id);
        assert(self@ =~= old(self)@.learned(*observation, settings));
        true
    }
}

/// The exact keys among the first `n` items.
spec fn exact_prefix<V>(items: Seq<(u128, V)>, n: int) -> Set<u128> {
    Set::new(
        |key: u128|
            features::key_is_exact(key as u64) && exists|j: int|
                0 <= j < n && (#[trigger] items[j]).0 == key,
    )
}

proof fn lemma_exact_prefix_none<V>(items: Seq<(u128, V)>)
    ensures
        exact_prefix(items, 0) == Set::<u128>::empty(),
{
    assert(exact_prefix(items, 0) =~= Set::<u128>::empty());
}

proof fn lemma_exact_prefix_step<V>(items: Seq<(u128, V)>, i: int)
    requires
        0 <= i < items.len(),
        key_map::keys_increase(items),
    ensures
        exact_prefix(items, i + 1) == if features::key_is_exact(items[i].0 as u64) {
            exact_prefix(items, i).insert(items[i].0)
        } else {
            exact_prefix(items, i)
        },
        !exact_prefix(items, i).contains(items[i].0),
{
    let key = items[i].0;
    assert(!exact_prefix(items, i).contains(key)) by {
        if exact_prefix(items, i).contains(key) {
            let j = choose|j: int| 0 <= j < i && (#[trigger] items[j]).0 == key;
            assert(items[j].0 < items[i].0);
        }
    }
    if features::key_is_exact(key as u64) {
        assert(exact_prefix(items, i + 1) =~= exact_prefix(items, i).insert(key));
    } else {
        assert(exact_prefix(items, i + 1) =~= exact_prefix(items, i));
    }
}

/// The largest change one promotion makes to a multiplier.
pub open spec fn step_limit(current: u32, settings: AdaptiveSettings) -> int {
    arith::max_int((current * settings.max_step_percent) / 100, 1)
}

/// A proposed multiplier held within one step of the current one, and within
/// the configured range.
pub open spec fn step_bounded(proposed: u32, current: u32, settings: AdaptiveSettings) -> u32 {
    let step = step_limit(current, settings);
    estimate::between(
        estimate::between(
            proposed as int,
            arith::clamp_u32(current - step) as int,
            arith::clamp_u32(current + step) as int,
        ),
        settings.minimum_multiplier_ppm as int,
        settings.maximum_multiplier_ppm as int,
    ) as u32
}

pub open spec fn multiplier_at(multipliers: Map<u128, u32>, key: u128) -> u32 {
    if multipliers.contains_key(key) {
        multipliers[key]
    } else {
        MULTIPLIER_ONE
    }
}

/// The next model: every estimate with a proposal, one step from the current
/// model.
pub open spec fn candidate(state: ProfileState, settings: AdaptiveSettings) -> Map<u128, u32> {
    Map::new(
        |key: u128|
            state.estimates.contains_key(key) && estimate::proposal(
                state.estimates[key],
                settings,
            ) is Some,
        |key: u128|
            step_bounded(
                estimate::proposal(state.estimates[key], settings)->0,
                multiplier_at(state.active.multipliers, key),
                settings,
            ),
    )
}

fn hold_to_step(proposed: u32, current: u32, settings: &AdaptiveSettings) -> (bounded: u32)
    requires
        settings.in_range(),
    ensures
        bounded == step_bounded(proposed, current, *settings),
        settings.minimum_multiplier_ppm <= bounded <= settings.maximum_multiplier_ppm,
{
    proof {
        let c = current as int;
        let p = settings.max_step_percent as int;
        assert(0 <= c * p <= 0xffff_ffff * 25) by (nonlinear_arith)
            requires
                0 <= c <= 0xffff_ffff,
                1 <= p <= 25,
        ;
    }
    let share: u64 = current as u64 * settings.max_step_percent as u64 / 100;
    let step: u32 = if share < 1 {
        1
    } else {
        share as u32
    };
    let low: u32 = current.saturating_sub(step);
    let high: u32 = current.saturating_add(step);
    let near: u32 = if proposed < low {
        low
    } else if proposed > high {
        high
    } else {
        proposed
    };
    if near < settings.minimum_multiplier_ppm {
        settings.minimum_multiplier_ppm
    } else if near > settings.maximum_multiplier_ppm {
        settings.maximum_multiplier_ppm
    } else {
        near
    }
}

/// The bytes of a model: each key and its multiplier, in key order.
pub open spec fn model_bytes(items: Seq<(u128, u32)>) -> Seq<u8>
    decreases items.len(),
{
    if items.len() == 0 {
        Seq::empty()
    } else {
        model_bytes(items.drop_last()) + bytes::spec_u64_to_le_bytes(items.last().0 as u64)
            + bytes::spec_u32_to_le_bytes(items.last().1)
    }
}

pub open spec fn mode_code(mode: AdaptiveMode) -> u8 {
    match mode {
        AdaptiveMode::Disabled => 0,
        AdaptiveMode::Shadow => 1,
        AdaptiveMode::Enabled => 2,
    }
}

/// The bytes of learning settings.
pub open spec fn settings_bytes(s: AdaptiveSettings) -> Seq<u8> {
    seq![mode_code(s.mode)] + bytes::spec_u32_to_le_bytes(s.min_samples)
        + bytes::spec_u64_to_le_bytes(s.max_buckets as u64) + bytes::spec_u32_to_le_bytes(
        s.max_step_percent,
    ) + bytes::spec_u32_to_le_bytes(s.minimum_multiplier_ppm) + bytes::spec_u32_to_le_bytes(
        s.maximum_multiplier_ppm,
    ) + bytes::spec_u32_to_le_bytes(s.maximum_failure_upper_ppm) + bytes::spec_u32_to_le_bytes(
        s.minimum_evaluation_journeys,
    ) + bytes::spec_u32_to_le_bytes(s.maximum_p95_regression_percent)
}

/// The bytes of a regime, or the mark that there is none.
pub open spec fn regime_bytes(regime: Option<context::Regime>) -> Seq<u8> {
    match regime {
        Some(r) => seq![1u8] + digest::text_bytes(r.build_id) + bytes::spec_u64_to_le_bytes(
            r.planner_settings_hash,
        ) + bytes::spec_u64_to_le_bytes(r.control_settings_hash) + bytes::spec_u64_to_le_bytes(
            r.baseline_costs_hash,
        ) + bytes::spec_u64_to_le_bytes(r.actor_capability_hash),
        None => seq![0u8],
    }
}

/// The canonical bytes of a candidate: the profile's revisions, the settings,
/// the regime, and the model itself.
pub open spec fn candidate_bytes(state: ProfileState, settings: AdaptiveSettings) -> Seq<u8> {
    utf8::encode_utf8("azalea-pathfinder/candidate-model/v2"@) + bytes::spec_u16_to_le_bytes(
        state.schema,
    ) + bytes::spec_u64_to_le_bytes(state.data_revision) + bytes::spec_u64_to_le_bytes(
        state.active.revision,
    ) + settings_bytes(settings) + regime_bytes(state.regime) + model_bytes(
        key_map::in_order(candidate(state, settings)),
    )
}

fn settings_encoding(s: &AdaptiveSettings) -> (out: Vec<u8>)
    ensures
        out@ == settings_bytes(*s),
{
    let mut out: Vec<u8> = Vec::new();
    let mode: u8 = match s.mode {
        AdaptiveMode::Disabled => 0,
        AdaptiveMode::Shadow => 1,
        AdaptiveMode::Enabled => 2,
    };
    out.push(mode);
    assert(out@ =~= seq![mode_code(s.mode)]);
    put_u32(&mut out, s.min_samples);
    put_u64(&mut out, s.max_buckets as u64);
    put_u32(&mut out, s.max_step_percent);
    put_u32(&mut out, s.minimum_multiplier_ppm);
    put_u32(&mut out, s.maximum_multiplier_ppm);
    put_u32(&mut out, s.maximum_failure_upper_ppm);
    put_u32(&mut out, s.minimum_evaluation_journeys);
    put_u32(&mut out, s.maximum_p95_regression_percent);
    out
}

fn regime_encoding(regime: &Option<AdaptiveRegime>) -> (out: Vec<u8>)
    ensures
        out@ == regime_bytes(
            match regime {
                Some(r) => Some(r@),
                None => None,
            },
        ),
{
    let mut out: Vec<u8> = Vec::new();
    match regime {
        Some(r) => {
            out.push(1);
            assert(out@ =~= seq![1u8]);
            put_text(&mut out, r.build_id.as_str());
            put_u64(&mut out, r.planner_settings_hash);
            put_u64(&mut out, r.control_settings_hash);
            put_u64(&mut out, r.baseline_costs_hash);
            put_u64(&mut out, r.actor_capability_hash);
        },
        None => {
            out.push(0);
            assert(out@ =~= seq![0u8]);
        },
    }
    out
}

fn model_encoding(model: &KeyMap<u32>) -> (out: Vec<u8>)
    ensures
        out@ == model_bytes(key_map::in_order(model@)),
{
    let total: usize = model.len();
    let ghost items = model.items_in_order();
    let mut out: Vec<u8> = Vec::new();
    assert(items.take(0) =~= Seq::empty());
    assert(out@ =~= model_bytes(items.take(0)));
    let mut i: usize = 0;
    while i < total
        invariant
            i <= total == items.len(),
            items == model.items_in_order(),
            out@ == model_bytes(items.take(i as int)),
        decreases total - i,
    {
        let key: u128 = model.key_at(i);
        let value: u32 = *model.value_at(i);
        put_u64(&mut out, key as u64);
        put_u32(&mut out, value);
        i += 1;
        proof {
            let longer = items.take(i as int);
            assert(longer.drop_last() =~= items.take(i - 1));
            assert(longer.last() == (key, value));
        }
    }
    assert(items.take(i as int) =~= items);
    out
}

impl AdaptiveProfile {
    /// The exact step-bounded candidate for these settings.
    fn bounded_candidate(&self, settings: &AdaptiveSettings) -> (model: KeyMap<u32>)
        requires
            settings.in_range(),
        ensures
            model@ == candidate(self@, *settings),
    {
        let mut model: KeyMap<u32> = KeyMap::new();
        let total: usize = self.estimates.len();
        let ghost items = self.estimates.items_in_order();
        let ghost wanted = candidate(self@, *settings);
        proof {
            key_map::lemma_items_map(items);
        }
        let mut i: usize = 0;
        while i < total
            invariant
                i <= total == items.len(),
                items == self.estimates.items_in_order(),
                self.estimates@ == key_map::items_map(items),
                key_map::keys_increase(items),
                settings.in_range(),
                wanted == candidate(self@, *settings),
                forall|key: u128| #[trigger]
                    model@.contains_key(key) ==> wanted.contains_key(key) && model@[key]
                        == wanted[key],
                forall|j: int|
                    0 <= j < i && wanted.contains_key((#[trigger] items[j]).0)
                        ==> model@.contains_key(items[j].0),
            decreases total - i,
        {
            proof {
                key_map::lemma_items_map(items);
            }
            let key: u128 = self.estimates.key_at(i);
            let estimate: PrimitiveEstimate = *self.estimates.value_at(i);
            if let Some(proposed) = estimate.proposed_multiplier(settings) {
                let current: u32 = match self.active.multipliers.get(key) {
                    Some(multiplier) => *multiplier,
                    None => MULTIPLIER_ONE,
                };
                model.insert(key, hold_to_step(proposed, current, settings));
            }
            i += 1;
        }
        proof {
            key_map::lemma_items_map(items);
            assert forall|key: u128| #[trigger] wanted.contains_key(key) implies model@.contains_key(
                key,
            ) by {
                let j = choose|j: int| 0 <= j < items.len() && (#[trigger] items[j]).0 == key;
                assert(wanted.contains_key(items[j].0));
            }
            assert(model@ =~= wanted);
        }
        model
    }

    /// The bytes that a candidate's hash is taken of.
    pub fn candidate_encoding(&self, settings: &AdaptiveSettings) -> (out: Vec<u8>)
        ensures
            out@ == candidate_bytes(self@, settings.ranged()),
    {
        let settings = settings.validated();
        let model = self.bounded_candidate(&settings);
        let mut out = encoding_of("azalea-pathfinder/candidate-model/v2");
        put_u16(&mut out, self.schema);
        put_u64(&mut out, self.data_revision);
        put_u64(&mut out, self.active.revision);
        digest::put_bytes(&mut out, settings_encoding(&settings).as_slice());
        digest::put_bytes(&mut out, regime_encoding(&self.regime).as_slice());
        digest::put_bytes(&mut out, model_encoding(&model).as_slice());
        out
    }

    /// Identifies the exact candidate an evaluation was made for.
    pub fn candidate_hash(&self, settings: &AdaptiveSettings) -> (hash: u64)
        ensures
            hash == digest::short_hash(candidate_bytes(self@, settings.ranged())),
    {
        hash_bytes(&self.candidate_encoding(settings))
    }

    /// Freezes the models for a leg whose baseline costs hash to `costs_hash`.
    pub fn snapshot_hashed(
        &self,
        baseline: MovementCosts,
        settings: &AdaptiveSettings,
        regime: &AdaptiveRegime,
        costs_hash: u64,
    ) -> (snapshot: CostModelSnapshot)
        ensures
            freezes(self@, baseline, *settings, regime@, costs_hash, snapshot),
    {
        let settings = settings.validated();
        let known: bool = match &self.regime {
            Some(own) => own.is_same(regime),
            None => false,
        };
        let matches: bool = regime.validate_for(&self.key) && costs_hash
            == regime.baseline_costs_hash && known;
        if matches {
            CostModelSnapshot {
                data_revision: self.data_revision,
                model_revision: self.active.revision,
                mode: settings.mode,
                baseline,
                active: self.active.multipliers.duplicate(),
                candidate: self.bounded_candidate(&settings),
            }
        } else {
            CostModelSnapshot {
                data_revision: 0,
                model_revision: 0,
                mode: settings.mode,
                baseline,
                active: KeyMap::new(),
                candidate: KeyMap::new(),
            }
        }
    }

    /// Freezes the models for a leg. A leg under another regime gets the
    /// baseline model.
    pub fn snapshot(
        &self,
        baseline: MovementCosts,
        settings: &AdaptiveSettings,
        regime: &AdaptiveRegime,
    ) -> (snapshot: CostModelSnapshot)
        ensures
            freezes(
                self@,
                baseline,
                *settings,
                regime@,
                digest::short_hash(digest::costs_bytes(baseline)),
                snapshot,
            ),
    {
        self.snapshot_hashed(baseline, settings, regime, movement_costs_hash(baseline))
    }

    /// Promotes a shadow candidate whose hash is `candidate_hash`.
    pub fn promote_hashed(
        &mut self,
        report: &PromotionReport,
        settings: &AdaptiveSettings,
        candidate_hash: u64,
    ) -> (revision: Result<u64, PromotionError>)
        ensures
            match promotion_fault(old(self)@, *report, settings.ranged(), candidate_hash) {
                Some(fault) => revision == Err::<u64, PromotionError>(fault) && final(self)@ == old(self)@,
                None => {
                    &&& final(self)@ == old(self)@.promoted(*report, settings.ranged())
                    &&& revision == Ok::<u64, PromotionError>(final(self)@.active.revision)
                },
            },
    {
        let settings = settings.validated();
        if report.candidate_data_revision != self.data_revision || report.expected_model_revision
            != self.active.revision || report.candidate_hash != candidate_hash
            || report.evaluation_id == 0 || report.evaluation_id <= self.last_evaluation_id {
            return Err(PromotionError::StaleCandidate);
        }
        if let Err(fault) = report.validate(&settings) {
            return Err(fault);
        }
        let bounded = self.bounded_candidate(&settings);
        if bounded.len() == 0 {
            assert(bounded@ =~= Map::<u128, u32>::empty()) by {
                assert(bounded@.dom() =~= Set::empty());
            }
            return Err(PromotionError::InsufficientSamples);
        }
        assert(bounded@ != Map::<u128, u32>::empty());
        if self.active.revision == u64::MAX {
            return Err(PromotionError::RevisionOverflow);
        }
        let next: u64 = self.active.revision + 1;
        self.previous = Some(self.active.clone());
        self.active =
        PromotedModel {
            revision: next,
            source_data_revision: self.data_revision,
            multipliers: bounded,
        };
        self.last_evaluation_id = report.evaluation_id;
        assert(self@ =~= old(self)@.promoted(*report, settings));
        Ok(next)
    }

    /// Promotes a shadow candidate only when its paired evaluation is at least
    /// as safe as the known-good baseline and does not materially regress p95.
    pub fn promote(&mut self, report: &PromotionReport, settings: &AdaptiveSettings) -> (revision:
        Result<u64, PromotionError>)
        ensures
            match promotion_fault(
                old(self)@,
                *report,
                settings.ranged(),
                digest::short_hash(candidate_bytes(old(self)@, settings.ranged())),
            ) {
                Some(fault) => revision == Err::<u64, PromotionError>(fault) && final(self)@ == old(self)@,
                None => {
                    &&& final(self)@ == old(self)@.promoted(*report, settings.ranged())
                    &&& revision == Ok::<u64, PromotionError>(final(self)@.active.revision)
                },
            },
    {
        let hash: u64 = self.candidate_hash(settings);
        self.promote_hashed(report, settings, hash)
    }

    /// Goes back to the model before the last promotion, under a new revision.
    pub fn rollback(&mut self, _signal: GuardSignal) -> (revision: Result<u64, PromotionError>)
        ensures
            match old(self)@.previous {
                None => revision == Err::<u64, PromotionError>(PromotionError::NoRollback)
                    && final(self)@ == old(self)@,
                Some(_) => if old(self)@.active.revision == u64::MAX {
                    revision == Err::<u64, PromotionError>(PromotionError::RevisionOverflow)
                        && final(self)@ == (ProfileState { previous: None, ..old(self)@ })
                } else {
                    final(self)@ == old(self)@.rolled_back() && revision == Ok::<
                        u64,
                        PromotionError,
                    >(final(self)@.active.revision)
                },
            },
    {
        let mut previous: Option<PromotedModel> = None;
        std::mem::swap(&mut previous, &mut self.previous);
        match previous {
            None => Err(PromotionError::NoRollback),
            Some(model) => {
                if self.active.revision == u64::MAX {
                    return Err(PromotionError::RevisionOverflow);
                }
                let next: u64 = self.active.revision + 1;
                self.active =
                PromotedModel {
                    revision: next,
                    source_data_revision: model.source_data_revision,
                    multipliers: model.multipliers,
                };
                Ok(next)
            },
        }
    }
}

/// Whether a snapshot freezes a profile for a leg: its models under its own
/// regime and costs, and the bare baseline under any other.
pub open spec fn freezes(
    state: ProfileState,
    baseline: MovementCosts,
    settings: AdaptiveSettings,
    regime: context::Regime,
    costs_hash: u64,
    snapshot: CostModelSnapshot,
) -> bool {
    let matches = regime.valid_for(state.key) && costs_hash == regime.baseline_costs_hash
        && state.regime == Some(regime);
    &&& snapshot.mode == settings.mode
    &&& snapshot.baseline == baseline
    &&& if matches {
        &&& snapshot.data_revision == state.data_revision
        &&& snapshot.model_revision == state.active.revision
        &&& snapshot.active_model() == state.active.multipliers
        &&& snapshot.candidate_model() == candidate(state, settings.ranged())
    } else {
        &&& snapshot.data_revision == 0
        &&& snapshot.model_revision == 0
        &&& snapshot.active_model() == Map::<u128, u32>::empty()
        &&& snapshot.candidate_model() == Map::<u128, u32>::empty()
    }
}

/// Why a candidate is not promoted, if it is not.
pub open spec fn promotion_fault(
    state: ProfileState,
    report: PromotionReport,
    settings: AdaptiveSettings,
    candidate_hash: u64,
) -> Option<PromotionError> {
    if report.candidate_data_revision != state.data_revision || report.expected_model_revision
        != state.active.revision || report.candidate_hash != candidate_hash || report.evaluation_id
        == 0 || report.evaluation_id <= state.last_evaluation_id {
        Some(PromotionError::StaleCandidate)
    } else if promotion::report_fault(report, settings) is Some {
        promotion::report_fault(report, settings)
    } else if candidate(state, settings) == Map::<u128, u32>::empty() {
        Some(PromotionError::InsufficientSamples)
    } else if state.active.revision == u64::MAX {
        Some(PromotionError::RevisionOverflow)
    } else {
        None
    }
}

impl ProfileState {
    /// The profile after a promotion: the candidate is active and the model
    /// before it is kept.
    pub open spec fn promoted(
        self,
        report: PromotionReport,
        settings: AdaptiveSettings,
    ) -> ProfileState {
        ProfileState {
            active: ModelState {
                revision: (self.active.revision + 1) as u64,
                source_data_revision: self.data_revision,
                multipliers: candidate(self, settings),
            },
            previous: Some(self.active),
            last_evaluation_id: report.evaluation_id,
            ..self
        }
    }

    /// The profile after a rollback: the kept model is active again, under a
    /// new revision.
    pub open spec fn rolled_back(self) -> ProfileState {
        ProfileState {
            active: ModelState {
                revision: (self.active.revision + 1) as u64,
                ..self.previous->0
            },
            previous: None,
            ..self
        }
    }
}

/// A rollback undoes a promotion: the multipliers are those from before it,
/// under a revision that is newer than both.
pub proof fn rollback_undoes_promotion(
    state: ProfileState,
    report: PromotionReport,
    settings: AdaptiveSettings,
)
    requires
        state.active.revision < u64::MAX - 1,
    ensures
        state.promoted(report, settings).rolled_back().active.multipliers
            == state.active.multipliers,
        state.promoted(report, settings).rolled_back().active.source_data_revision
            == state.active.source_data_revision,
        state.promoted(report, settings).rolled_back().active.revision == state.active.revision + 2,
        state.promoted(report, settings).rolled_back().estimates == state.estimates,
{
}

/// One promotion moves a multiplier by at most its step, unless the configured
/// range itself forces it further.
pub proof fn promotions_take_bounded_steps(
    state: ProfileState,
    settings: AdaptiveSettings,
    key: u128,
)
    requires
        settings.in_range(),
        candidate(state, settings).contains_key(key),
    ensures
        ({
            let current = multiplier_at(state.active.multipliers, key);
            let next = candidate(state, settings)[key];
            let step = step_limit(current, settings);
            &&& settings.minimum_multiplier_ppm <= next <= settings.maximum_multiplier_ppm
            &&& settings.minimum_multiplier_ppm <= current <= settings.maximum_multiplier_ppm
                ==> current - step <= next <= current + step
        }),
{
}

/// Every key of a model is valid and every multiplier is in the supported
/// range.
pub open spec fn valid_model(model: ModelState) -> bool {
    &&& model.multipliers.dom().finite()
    &&& model.multipliers.dom().len() <= MAX_MODEL_BUCKETS
    &&& forall|key: u128| #[trigger]
        model.multipliers.contains_key(key) ==> key <= u64::MAX && features::key_is_valid(
            key as u64,
        ) && 100_000 <= model.multipliers[key] <= 4_000_000
}

impl ProfileState {
    /// Every bucket is a valid key with a valid estimate that arrived within
    /// the accepted telemetry.
    pub open spec fn estimates_valid(self) -> bool {
        forall|key: u128| #[trigger]
            self.estimates.contains_key(key) ==> key <= u64::MAX && features::key_is_valid(
                key as u64,
            ) && self.estimates[key].valid() && 0 < self.estimates[key].last_sequence
                <= self.data_revision
    }

    /// Every remembered completion is filed under its nonce, within the replay
    /// window.
    pub open spec fn completions_valid(self) -> bool {
        forall|nonce: u128| #[trigger]
            self.recent.contains_key(nonce) ==> 0 < nonce == self.recent[nonce].nonce
                <= self.high_water && nonce > replay_floor(self.high_water)
    }

    pub open spec fn models_valid(self) -> bool {
        &&& valid_model(self.active)
        &&& self.active.source_data_revision <= self.data_revision
        &&& self.active.revision == 0 ==> self.active == no_model()
        &&& self.previous matches Some(previous) ==> valid_model(previous) && previous.revision
            < self.active.revision && previous.source_data_revision <= self.data_revision
        &&& self.active.revision == 0 || self.last_evaluation_id != 0
    }

    /// A profile without telemetry is pristine, and one with telemetry has
    /// everything that comes with it.
    pub open spec fn initialized(self) -> bool {
        if self.data_revision == 0 {
            &&& self.regime is None
            &&& self.estimates == Map::<u128, PrimitiveEstimate>::empty()
            &&& self.recent == Map::<u128, ObservationId>::empty()
            &&& self.high_water == 0
            &&& self.active == no_model()
            &&& self.previous is None
            &&& self.last_evaluation_id == 0
        } else {
            &&& self.regime is Some
            &&& self.estimates.dom().len() > 0
            &&& self.recent.dom().len() > 0
            &&& 0 < self.high_water < MAX_OBSERVATION_NONCE
        }
    }

    /// The invariant of a profile, which is also what a stored one is checked
    /// for.
    pub open spec fn valid(self) -> bool {
        &&& self.schema == ADAPTIVE_SCHEMA_VERSION
        &&& self.key.valid()
        &&& self.estimates.dom().finite()
        &&& self.recent.dom().finite()
        &&& exact_slots(self.estimates.dom()).len() <= MAX_PROFILE_BUCKETS
        &&& self.estimates.dom().len() - exact_slots(self.estimates.dom()).len() <= 11
        &&& self.recent.dom().len() <= MAX_RECENT_COMPLETIONS
        &&& self.regime matches Some(regime) ==> regime.valid_for(self.key)
        &&& self.estimates_valid()
        &&& self.completions_valid()
        &&& self.models_valid()
        &&& self.initialized()
    }
}

fn check_model(model: &PromotedModel) -> (r: bool)
    ensures
        r == valid_model(model@),
{
    let total: usize = model.multipliers.len();
    if total > MAX_MODEL_BUCKETS {
        return false;
    }
    let ghost items = model.multipliers.items_in_order();
    let ghost map = model.multipliers@;
    proof {
        key_map::lemma_items_map(items);
    }
    let mut i: usize = 0;
    while i < total
        invariant
            i <= total == items.len(),
            items == model.multipliers.items_in_order(),
            map == model.multipliers@,
            map == key_map::items_map(items),
            key_map::keys_increase(items),
            forall|j: int|
                0 <= j < i ==> (#[trigger] items[j]).0 <= u64::MAX && features::key_is_valid(
                    items[j].0 as u64,
                ) && 100_000 <= items[j].1 <= 4_000_000,
        decreases total - i,
    {
        let key: u128 = model.multipliers.key_at(i);
        let value: u32 = *model.multipliers.value_at(i);
        if key > u64::MAX as u128 || !FeatureKey(key as u64).validate() || value < 100_000 || value
            > 4_000_000 {
            assert(model@.multipliers.contains_key(key) && model@.multipliers[key] == value);
            return false;
        }
        i += 1;
    }
    proof {
        key_map::lemma_items_map(items);
        assert forall|key: u128| #[trigger] map.contains_key(key) implies key <= u64::MAX
            && features::key_is_valid(key as u64) && 100_000 <= map[key] <= 4_000_000 by {
            let j = choose|j: int| 0 <= j < items.len() && (#[trigger] items[j]).0 == key;
            assert(items[j].0 <= u64::MAX);
        }
    }
    true
}

impl AdaptiveProfile {
    fn check_estimates(&self) -> (r: bool)
        ensures
            r == self@.estimates_valid(),
    {
        let total: usize = self.estimates.len();
        let ghost items = self.estimates.items_in_order();
        let ghost map = self.estimates@;
        proof {
            key_map::lemma_items_map(items);
        }
        let mut i: usize = 0;
        while i < total
            invariant
                i <= total == items.len(),
                items == self.estimates.items_in_order(),
                map == self.estimates@,
                map == key_map::items_map(items),
                key_map::keys_increase(items),
                forall|j: int|
                    0 <= j < i ==> (#[trigger] items[j]).0 <= u64::MAX && features::key_is_valid(
                        items[j].0 as u64,
                    ) && items[j].1.valid() && 0 < items[j].1.last_sequence <= self.data_revision,
            decreases total - i,
        {
            let key: u128 = self.estimates.key_at(i);
            let estimate: PrimitiveEstimate = *self.estimates.value_at(i);
            if key > u64::MAX as u128 || !FeatureKey(key as u64).validate() || !estimate.validate()
                || estimate.last_sequence == 0 || estimate.last_sequence > self.data_revision {
                assert(self@.estimates.contains_key(key) && self@.estimates[key] == estimate);
                return false;
            }
            i += 1;
        }
        proof {
            key_map::lemma_items_map(items);
            assert forall|key: u128| #[trigger] map.contains_key(key) implies key <= u64::MAX
                && features::key_is_valid(key as u64) && map[key].valid() && 0
                < map[key].last_sequence <= self.data_revision by {
                let j = choose|j: int| 0 <= j < items.len() && (#[trigger] items[j]).0 == key;
                assert(items[j].0 <= u64::MAX);
            }
        }
        true
    }

    fn check_completions(&self) -> (r: bool)
        ensures
            r == self@.completions_valid(),
    {
        let total: usize = self.recent_completions.len();
        let floor: u64 = floor_of(self.replay_high_water);
        let ghost items = self.recent_completions.items_in_order();
        let ghost map = self.recent_completions@;
        proof {
            key_map::lemma_items_map(items);
        }
        let mut i: usize = 0;
        while i < total
            invariant
                i <= total == items.len(),
                items == self.recent_completions.items_in_order(),
                map == self.recent_completions@,
                map == key_map::items_map(items),
                key_map::keys_increase(items),
                floor == replay_floor(self.replay_high_water),
                forall|j: int|
                    0 <= j < i ==> 0 < (#[trigger] items[j]).0 == items[j].1.nonce
                        <= self.replay_high_water && items[j].0 > floor,
            decreases total - i,
        {
            let nonce: u128 = self.recent_completions.key_at(i);
            let completion: ObservationId = *self.recent_completions.value_at(i);
            if nonce == 0 || nonce != completion.nonce as u128 || completion.nonce
                > self.replay_high_water || completion.nonce <= floor {
                assert(self@.recent.contains_key(nonce) && self@.recent[nonce] == completion);
                return false;
            }
            i += 1;
        }
        proof {
            key_map::lemma_items_map(items);
            assert forall|nonce: u128| #[trigger] map.contains_key(nonce) implies 0 < nonce
                == map[nonce].nonce <= self.replay_high_water && nonce > floor by {
                let j = choose|j: int| 0 <= j < items.len() && (#[trigger] items[j]).0 == nonce;
                assert(0 < items[j].0);
            }
        }
        true
    }

    fn check_models(&self) -> (r: bool)
        ensures
            r == self@.models_valid(),
    {
        if !check_model(&self.active) || self.active.source_data_revision > self.data_revision {
            return false;
        }
        let entries: usize = self.active.multipliers.len();
        if self.active.revision == 0 && (self.active.source_data_revision != 0 || entries != 0) {
            proof {
                if self.active@ == no_model() {
                    assert(self.active.multipliers@.dom() =~= Set::empty());
                }
            }
            return false;
        }
        proof {
            if entries == 0 {
                assert(self.active.multipliers@.dom() =~= Set::empty());
                assert(self.active.multipliers@ =~= Map::<u128, u32>::empty());
            }
        }
        if let Some(previous) = &self.previous {
            if !check_model(previous) || previous.revision >= self.active.revision
                || previous.source_data_revision > self.data_revision {
                return false;
            }
        }
        self.active.revision == 0 || self.last_evaluation_id != 0
    }

    fn check_initialized(&self) -> (r: bool)
        ensures
            r == self@.initialized(),
    {
        let estimates: usize = self.estimates.len();
        let recent: usize = self.recent_completions.len();
        if self.data_revision == 0 {
            let entries: usize = self.active.multipliers.len();
            proof {
                if estimates == 0 {
                    assert(self.estimates@.dom() =~= Set::empty());
                    assert(self.estimates@ =~= Map::<u128, PrimitiveEstimate>::empty());
                }
                if recent == 0 {
                    assert(self.recent_completions@.dom() =~= Set::empty());
                    assert(self.recent_completions@ =~= Map::<u128, ObservationId>::empty());
                }
                if entries == 0 {
                    assert(self.active.multipliers@.dom() =~= Set::empty());
                    assert(self.active.multipliers@ =~= Map::<u128, u32>::empty());
                }
                if self@.initialized() {
                    assert(self.estimates@.dom() =~= Set::empty());
                    assert(self.recent_completions@.dom() =~= Set::empty());
                    assert(self.active.multipliers@.dom() =~= Set::empty());
                }
            }
            self.regime.is_none() && estimates == 0 && recent == 0 && self.replay_high_water == 0
                && self.active.revision == 0 && self.active.source_data_revision == 0 && entries
                == 0 && self.previous.is_none() && self.last_evaluation_id == 0
        } else {
            self.regime.is_some() && estimates > 0 && recent > 0 && self.replay_high_water != 0
                && self.replay_high_water < MAX_OBSERVATION_NONCE
        }
    }

    pub fn validate(&self) -> (r: bool)
        ensures
            r == self@.valid(),
    {
        let exact_buckets: usize = self.count_exact();
        let estimates: usize = self.estimates.len();
        let recent: usize = self.recent_completions.len();
        let regime_valid: bool = match &self.regime {
            Some(regime) => regime.validate_for(&self.key),
            None => true,
        };
        self.schema == ADAPTIVE_SCHEMA_VERSION && self.key.validate() && exact_buckets
            <= MAX_PROFILE_BUCKETS && estimates - exact_buckets <= 11 && recent as u64
            <= MAX_RECENT_COMPLETIONS && regime_valid && self.check_estimates()
            && self.check_completions() && self.check_models() && self.check_initialized()
    }
}

} // verus!
