//! The bounded telemetry queue and the rules of profile and telemetry files.
use std::collections::VecDeque;

use vstd::prelude::*;

use crate::adaptive::context::ProfileKey;
use crate::adaptive::observation::MoveObservation;
use crate::adaptive::profile::AdaptiveProfile;
use crate::text::same_text;

verus! {

pub const MAX_PROFILE_BYTES: u64 = 1_048_576;

pub const MAX_TELEMETRY_FILE_BYTES: u64 = 8_388_608;

pub const MAX_QUEUED_OBSERVATIONS: usize = 65_536;

/// Why a profile cannot be used.
#[derive(Clone, Copy, PartialEq, Eq, Structural, Debug)]
pub enum ProfileError {
    Invalid,
    TooLarge,
    Capacity,
    AlreadyExists,
    NonceExhausted,
}

/// Whether a profile file is small enough to be read or written.
pub fn check_profile_size(bytes: u64) -> (checked: Result<(), ProfileError>)
    ensures
        checked == if bytes > MAX_PROFILE_BYTES {
            Err::<(), ProfileError>(ProfileError::TooLarge)
        } else {
            Ok(())
        },
{
    if bytes > MAX_PROFILE_BYTES {
        Err(ProfileError::TooLarge)
    } else {
        Ok(())
    }
}

/// Whether a stored profile is sound and belongs to the key it was asked for.
pub fn check_loaded_profile(profile: &AdaptiveProfile, key: &ProfileKey) -> (checked: Result<
    (),
    ProfileError,
>)
    ensures
        checked == if profile@.valid() && profile@.key == key@ {
            Ok::<(), ProfileError>(())
        } else {
            Err(ProfileError::Invalid)
        },
{
    if !profile.validate() || !profile.key.is_same(key) {
        Err(ProfileError::Invalid)
    } else {
        Ok(())
    }
}

/// Whether a profile may be stored.
pub fn check_saved_profile(profile: &AdaptiveProfile) -> (checked: Result<(), ProfileError>)
    ensures
        checked == if profile@.valid() {
            Ok::<(), ProfileError>(())
        } else {
            Err(ProfileError::Invalid)
        },
{
    if profile.validate() {
        Ok(())
    } else {
        Err(ProfileError::Invalid)
    }
}

/// What the telemetry writer does with one observation.
#[derive(Clone, Copy, PartialEq, Eq, Structural, Debug)]
pub enum WriteDecision {
    /// It is invalid or belongs to another profile.
    Discard,
    /// Append it to the current file.
    Append,
    /// The file is full: set it aside first.
    Rotate,
}

/// Decides on one observation, given the length of the file if there is one.
pub fn write_decision(
    observation: &MoveObservation,
    key: &ProfileKey,
    file_bytes: Option<u64>,
) -> (decision: WriteDecision)
    ensures
        decision == if !(observation.valid() && observation.context.profile@ == key@) {
            WriteDecision::Discard
        } else if file_bytes matches Some(n) && n >= MAX_TELEMETRY_FILE_BYTES {
            WriteDecision::Rotate
        } else {
            WriteDecision::Append
        },
{
    if !observation.validate() || !observation.context.profile.is_same(key) {
        return WriteDecision::Discard;
    }
    match file_bytes {
        Some(n) if n >= MAX_TELEMETRY_FILE_BYTES => WriteDecision::Rotate,
        _ => WriteDecision::Append,
    }
}

/// The bounded queue between the game tick and the telemetry writer. Producers
/// never wait: what does not fit, or comes after closing, is counted and
/// dropped.
pub struct TelemetryQueue {
    pub waiting: VecDeque<MoveObservation>,
    pub capacity: usize,
    pub closing: bool,
    pub dropped: u64,
}

impl TelemetryQueue {
    pub open spec fn wf(self) -> bool {
        self.waiting@.len() <= self.capacity
    }

    /// Observations not yet taken, oldest first.
    pub open spec fn queued(self) -> Seq<MoveObservation> {
        self.waiting@
    }

    /// A queue for at least one and at most [`MAX_QUEUED_OBSERVATIONS`]
    /// observations.
    pub fn with_capacity(capacity: usize) -> (queue: TelemetryQueue)
        ensures
            queue.wf(),
            queue.queued() == Seq::<MoveObservation>::empty(),
            queue.capacity == if capacity < 1 {
                1
            } else if capacity > MAX_QUEUED_OBSERVATIONS {
                MAX_QUEUED_OBSERVATIONS
            } else {
                capacity
            },
            !queue.closing,
            queue.dropped == 0,
    {
        TelemetryQueue {
            waiting: VecDeque::new(),
            capacity: if capacity < 1 {
                1
            } else if capacity > MAX_QUEUED_OBSERVATIONS {
                MAX_QUEUED_OBSERVATIONS
            } else {
                capacity
            },
            closing: false,
            dropped: 0,
        }
    }

    /// Offers an observation without waiting.
    pub fn try_send(&mut self, observation: MoveObservation) -> (sent: bool)
        requires
            old(self).wf(),
        ensures
            final(self).wf(),
            final(self).capacity == old(self).capacity,
            final(self).closing == old(self).closing,
            sent == (!old(self).closing && old(self).queued().len() < old(self).capacity),
            sent ==> final(self).queued() == old(self).queued().push(observation)
                && final(self).dropped == old(self).dropped,
            !sent ==> final(self).queued() == old(self).queued() && final(self).dropped == old(self).dropped.wrapping_add(1),
    {
        if self.closing || self.waiting.len() >= self.capacity {
            self.dropped = self.dropped.wrapping_add(1);
            return false;
        }
        self.waiting.push_back(observation);
        true
    }

    /// Takes the oldest observation.
    pub fn receive(&mut self) -> (oldest: Option<MoveObservation>)
        requires
            old(self).wf(),
        ensures
            final(self).wf(),
            final(self).capacity == old(self).capacity,
            final(self).closing == old(self).closing,
            final(self).dropped == old(self).dropped,
            match oldest {
                Some(observation) => {
                    &&& old(self).queued().len() > 0
                    &&& observation == old(self).queued()[0]
                    &&& final(self).queued() == old(self).queued().drop_first()
                },
                None => old(self).queued().len() == 0 && final(self).queued() == old(self).queued(),
            },
    {
        let oldest = self.waiting.pop_front();
        proof {
            if oldest is Some {
                assert(self.waiting@ =~= old(self).waiting@.drop_first());
            }
        }
        oldest
    }

    /// Refuses everything from now on; what is queued can still be taken.
    pub fn close(&mut self)
        requires
            old(self).wf(),
        ensures
            final(self).wf(),
            final(self).closing,
            final(self).queued() == old(self).queued(),
            final(self).capacity == old(self).capacity,
            final(self).dropped == old(self).dropped,
    {
        self.closing = true;
    }

    /// Counts one observation that was taken but could not be written.
    pub fn count_dropped(&mut self)
        requires
            old(self).wf(),
        ensures
            final(self).wf(),
            final(self).closing == old(self).closing,
            final(self).queued() == old(self).queued(),
            final(self).capacity == old(self).capacity,
            final(self).dropped == old(self).dropped.wrapping_add(1),
    {
        self.dropped = self.dropped.wrapping_add(1);
    }

    pub fn dropped(&self) -> (n: u64)
        ensures
            n == self.dropped,
    {
        self.dropped
    }
}

/// What the writer thread does next.
#[derive(Clone, Copy, PartialEq, Eq, Structural, Debug)]
pub enum WorkerStep {
    /// Write the observation that was taken.
    Write,
    /// Nothing is queued: look again later.
    Idle,
    /// Everything is written and the queue is closed: stop.
    Stop,
}

/// Decides the writer's next step from what the queue handed out: after
/// closing it drains what is left and only then stops.
pub fn worker_step(taken: bool, closing: bool) -> (step: WorkerStep)
    ensures
        step == if taken {
            WorkerStep::Write
        } else if closing {
            WorkerStep::Stop
        } else {
            WorkerStep::Idle
        },
{
    if taken {
        WorkerStep::Write
    } else if closing {
        WorkerStep::Stop
    } else {
        WorkerStep::Idle
    }
}

/// Why a telemetry writer is not started.
#[derive(Clone, Copy, PartialEq, Eq, Structural, Debug)]
pub enum WriterRefusal {
    /// The profile key is invalid.
    InvalidProfile,
    /// Another writer owns the profile's stream.
    AlreadyOwned,
}

/// The streams that a writer owns in this process, by path.
pub struct WriterRegistry {
    pub owned: Vec<String>,
}

impl WriterRegistry {
    /// Whether some writer owns a stream.
    pub open spec fn owns(self, path: Seq<char>) -> bool {
        exists|i: int| 0 <= i < self.owned@.len() && (#[trigger] self.owned@[i])@ == path
    }

    pub fn new() -> (registry: WriterRegistry)
        ensures
            forall|path: Seq<char>| !(#[trigger] registry.owns(path)),
    {
        WriterRegistry { owned: Vec::new() }
    }

    pub fn is_owned(&self, path: &str) -> (r: bool)
        ensures
            r == self.owns(path@),
    {
        let mut i: usize = 0;
        while i < self.owned.len()
            invariant
                i <= self.owned@.len(),
                forall|j: int| 0 <= j < i ==> (#[trigger] self.owned@[j])@ != path@,
            decreases self.owned@.len() - i,
        {
            if same_text(self.owned[i].as_str(), path) {
                return true;
            }
            i += 1;
        }
        false
    }

    /// Registers a writer for a valid profile, unless its stream is owned.
    pub fn register(&mut self, key: &ProfileKey, path: &str) -> (registered: Result<
        (),
        WriterRefusal,
    >)
        ensures
            registered == if !key@.valid() {
                Err::<(), WriterRefusal>(WriterRefusal::InvalidProfile)
            } else if old(self).owns(path@) {
                Err(WriterRefusal::AlreadyOwned)
            } else {
                Ok(())
            },
            registered is Err ==> final(self).owned@ == old(self).owned@,
            registered is Ok ==> forall|p: Seq<char>| #[trigger]
                final(self).owns(p) <==> p == path@ || old(self).owns(p),
    {
        if !key.validate() {
            return Err(WriterRefusal::InvalidProfile);
        }
        if self.is_owned(path) {
            return Err(WriterRefusal::AlreadyOwned);
        }
        self.owned.push(path.to_owned());
        proof {
            let n = old(self).owned@.len() as int;
            assert(self.owned@[n]@ == path@);
            assert forall|p: Seq<char>| #[trigger]
                self.owns(p) <==> p == path@ || old(self).owns(p) by {
                if old(self).owns(p) {
                    let i = choose|i: int|
                        0 <= i < old(self).owned@.len() && (#[trigger] old(self).owned@[i])@ == p;
                    assert(self.owned@[i]@ == p);
                }
                if self.owns(p) {
                    let i = choose|i: int|
                        0 <= i < self.owned@.len() && (#[trigger] self.owned@[i])@ == p;
                    if i < n {
                        assert(old(self).owned@[i]@ == p);
                    }
                }
            }
        }
        Ok(())
    }

    /// Gives a stream up.
    pub fn release(&mut self, path: &str)
        ensures
            forall|p: Seq<char>| #[trigger]
                final(self).owns(p) <==> p != path@ && old(self).owns(p),
    {
        let mut kept: Vec<String> = Vec::new();
        let ghost before = self.owned@;
        let mut i: usize = 0;
        while i < self.owned.len()
            invariant
                i <= self.owned@.len(),
                before == self.owned@,
                before == old(self).owned@,
                forall|k: int|
                    0 <= k < kept@.len() ==> (#[trigger] kept@[k])@ != path@ && exists|j: int|
                        0 <= j < before.len() && (#[trigger] before[j])@ == kept@[k]@,
                forall|j: int|
                    0 <= j < i && (#[trigger] before[j])@ != path@ ==> exists|k: int|
                        0 <= k < kept@.len() && (#[trigger] kept@[k])@ == before[j]@,
            decreases self.owned@.len() - i,
        {
            let ghost so_far = kept@;
            if !same_text(self.owned[i].as_str(), path) {
                kept.push(self.owned[i].clone());
                assert(kept@[so_far.len() as int]@ == before[i as int]@);
            }
            proof {
                assert forall|j: int| 0 <= j < i + 1 && (#[trigger] before[j])@ != path@ implies exists|
                    k: int,
                | 0 <= k < kept@.len() && (#[trigger] kept@[k])@ == before[j]@ by {
                    if j < i {
                        let k = choose|k: int|
                            0 <= k < so_far.len() && (#[trigger] so_far[k])@ == before[j]@;
                        assert(kept@[k] == so_far[k]);
                    }
                }
            }
            i += 1;
        }
        self.owned = kept;
        proof {
            assert forall|p: Seq<char>| #[trigger]
                self.owns(p) <==> p != path@ && old(self).owns(p) by {
                if self.owns(p) {
                    let k = choose|k: int|
                        0 <= k < kept@.len() && (#[trigger] self.owned@[k])@ == p;
                    assert(kept@[k]@ == p);
                    let j = choose|j: int|
                        0 <= j < before.len() && (#[trigger] before[j])@ == kept@[k]@;
                    assert(old(self).owned@[j]@ == p);
                }
                if p != path@ && old(self).owns(p) {
                    let j = choose|j: int|
                        0 <= j < before.len() && (#[trigger] old(self).owned@[j])@ == p;
                    assert(before[j]@ == p);
                    let k = choose|k: int|
                        0 <= k < kept@.len() && (#[trigger] kept@[k])@ == before[j]@;
                    assert(self.owned@[k]@ == p);
                }
            }
        }
    }
}

} // verus!
