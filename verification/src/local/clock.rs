//! The clocks that a search can run on.
use std::time::Instant;

use vstd::prelude::*;

verus! {

/// `std::time::Instant` is carried opaquely from the start of a call to each
/// reading of the clock.
#[verifier::external_type_specification]
#[verifier::external_body]
pub struct ExInstant(std::time::Instant);

/// Reads `std::time::Instant::now`. Nothing is claimed of the time it returns.
#[verifier::external_body]
fn clock_now() -> (now: Instant) {
    Instant::now()
}

/// Reads `std::time::Instant::elapsed` in whole nanoseconds. Nothing is claimed
/// of the time it returns.
#[verifier::external_body]
fn nanos_since(started: &Instant) -> (nanos: u128) {
    started.elapsed().as_nanos()
}

/// Something that measures how long a call has taken.
pub trait Clock {
    /// What every reading shows, for a clock that does not run.
    open spec fn reading(&self) -> Option<u128> {
        None
    }

    /// What the readings taken so far have shown.
    open spec fn log(&self) -> Seq<u128> {
        Seq::empty()
    }

    /// Starts measuring anew.
    fn start(&mut self)
        ensures
            final(self).reading() == old(self).reading(),
            final(self).log() == old(self).log(),
    ;

    /// The nanoseconds since the clock was started.
    fn nanos(&mut self) -> (nanos: u128)
        ensures
            final(self).reading() == old(self).reading(),
            final(self).log() == old(self).log().push(nanos),
            old(self).reading() matches Some(shown) ==> nanos == shown,
    ;
}

/// A clock that measures wall-clock time. It shows nothing until it is started.
pub struct RunningClock {
    started: Option<Instant>,
    log: Ghost<Seq<u128>>,
}

impl RunningClock {
    pub fn new() -> (clock: RunningClock)
        ensures
            clock.reading() is None,
            clock.log() == Seq::<u128>::empty(),
    {
        RunningClock { started: None, log: Ghost(Seq::empty()) }
    }
}

impl Clock for RunningClock {
    closed spec fn log(&self) -> Seq<u128> {
        self.log@
    }

    fn start(&mut self) {
        self.started = Some(clock_now());
    }

    fn nanos(&mut self) -> (nanos: u128) {
        let nanos: u128 = match &self.started {
            Some(started) => nanos_since(started),
            None => 0,
        };
        proof {
            self.log@ = self.log@.push(nanos);
        }
        nanos
    }
}

/// A clock that always shows the same time.
pub struct StoppedClock {
    shown: u128,
    log: Ghost<Seq<u128>>,
}

impl StoppedClock {
    pub fn new(shown: u128) -> (clock: StoppedClock)
        ensures
            clock.reading() == Some(shown),
            clock.log() == Seq::<u128>::empty(),
    {
        StoppedClock { shown, log: Ghost(Seq::empty()) }
    }
}

impl Clock for StoppedClock {
    closed spec fn reading(&self) -> Option<u128> {
        Some(self.shown)
    }

    closed spec fn log(&self) -> Seq<u128> {
        self.log@
    }

    fn start(&mut self) {
    }

    fn nanos(&mut self) -> (nanos: u128) {
        proof {
            self.log@ = self.log@.push(self.shown);
        }
        self.shown
    }
}

} // verus!
