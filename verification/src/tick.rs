//! The logical clock.
//!
//! Protocol timers count ticks instead of reading wall-clock time, which makes
//! every role deterministic but for the randomised election timeout.
use rand::rngs::StdRng;
use vstd::prelude::*;

verus! {

/// A moment of the logical clock.
#[derive(Clone, Copy, Debug, PartialEq, Eq, PartialOrd, Ord, Hash, Structural)]
pub struct Tick(pub u64);

/// A span of the logical clock.
#[derive(Clone, Copy, Debug, PartialEq, Eq, PartialOrd, Ord, Hash, Structural)]
pub struct TickDuration(pub u64);

/// The timers of the protocol, in ticks.
#[derive(Clone, Copy, Debug, PartialEq, Eq, Structural)]
pub struct TickThresholds {
    pub heartbeat_interval: TickDuration,
    pub min_election: TickDuration,
    pub max_election: TickDuration,
}

impl Tick {
    pub fn new(value: u64) -> (r: Tick)
        ensures
            r == Tick(value),
    {
        Tick(value)
    }

    /// The moment at which the clock starts.
    pub fn zero() -> (r: Tick)
        ensures
            r == Tick(0),
    {
        Tick(0)
    }

    /// The next moment; the clock stands still at the end of its range.
    pub open spec fn next(self) -> Tick {
        if self.0 < u64::MAX {
            Tick((self.0 + 1) as u64)
        } else {
            self
        }
    }

    /// The ticks that have passed since `start`, zero if `start` lies ahead.
    pub open spec fn since(self, start: Tick) -> int {
        if self.0 >= start.0 {
            self.0 - start.0
        } else {
            0
        }
    }

    /// Whether a timer of length `timeout` that was started at `start` has
    /// run out by now.
    pub open spec fn reached(self, start: Tick, timeout: TickDuration) -> bool {
        self.since(start) >= timeout.0
    }

    pub fn increment(&mut self)
        ensures
            *final(self) == old(self).next(),
    {
        self.0 = self.0.saturating_add(1);
    }

    pub fn elapsed_since(&self, start: Tick) -> (r: TickDuration)
        ensures
            r.0 == self.since(start),
    {
        TickDuration(self.0.saturating_sub(start.0))
    }

    pub fn has_reached(&self, start: Tick, timeout: TickDuration) -> (r: bool)
        ensures
            r == self.reached(start, timeout),
    {
        self.elapsed_since(start).0 >= timeout.0
    }

    pub fn as_u64(&self) -> (r: u64)
        ensures
            r == self.0,
    {
        self.0
    }
}

impl TickDuration {
    pub fn new(value: u64) -> (r: TickDuration)
        ensures
            r == TickDuration(value),
    {
        TickDuration(value)
    }

    pub fn as_u64(&self) -> (r: u64)
        ensures
            r == self.0,
    {
        self.0
    }
}

/// The generator behind the election timeouts: `rand`'s standard generator.
#[verifier::external_type_specification]
#[verifier::external_body]
pub struct ExStdRng(StdRng);

/// `rand::Rng::random_range` on the range `low..=high`.
///
/// Claimed of it: the number lies in the range, both ends belonging to it.
/// Which one it is depends on the generator. An empty range, on which it
/// panics, is ruled out.
#[verifier::external_body]
fn random_in_range(rng: &mut StdRng, low: u64, high: u64) -> (r: u64)
    requires
        low <= high,
    ensures
        low <= r <= high,
{
    rand::Rng::random_range(rng, low..=high)
}

impl TickThresholds {
    /// Whether an election timeout can be drawn.
    pub open spec fn wf(self) -> bool {
        self.min_election.0 <= self.max_election.0
    }

    /// Whether `timeout` is one that [`TickThresholds::generate_election_timeout`]
    /// may draw.
    pub open spec fn admits(self, timeout: TickDuration) -> bool {
        self.min_election.0 <= timeout.0 <= self.max_election.0
    }

    /// Draws an election timeout between `min_election` and `max_election`,
    /// both included.
    pub fn generate_election_timeout(&self, rng: &mut StdRng) -> (r: TickDuration)
        requires
            self.wf(),
        ensures
            self.admits(r),
    {
        TickDuration(random_in_range(rng, self.min_election.0, self.max_election.0))
    }
}

} // verus!
