//! Durations in explicit units. Deadlines are kept in milliseconds; some peers
//! speak whole seconds, and conversions between the two are explicit.
use vstd::prelude::*;

verus! {

/// A duration in whole seconds.
#[derive(Debug, Clone, Copy, PartialEq, Eq, Structural, Hash, PartialOrd, Ord)]
pub struct Seconds(pub u64);

/// A duration in milliseconds.
#[derive(Debug, Clone, Copy, PartialEq, Eq, Structural, Hash, PartialOrd, Ord)]
pub struct Milliseconds(pub u64);

impl Seconds {
    /// The same duration in milliseconds, if it fits in 64 bits.
    pub fn to_millis(&self) -> (r: Option<Milliseconds>)
        ensures
            self.0 * 1000 <= u64::MAX ==> r == Some(Milliseconds((self.0 * 1000) as u64)),
            self.0 * 1000 > u64::MAX ==> r is None,
    {
        match self.0.checked_mul(1000) {
            Some(ms) => Some(Milliseconds(ms)),
            None => None,
        }
    }
}

impl Milliseconds {
    /// The whole seconds of this duration (the remainder is dropped).
    pub fn to_seconds(&self) -> (r: Seconds)
        ensures
            r.0 == self.0 / 1000,
    {
        Seconds(self.0 / 1000)
    }

    /// Whether the duration is positive, as a deadline must be.
    pub fn is_positive(&self) -> (r: bool)
        ensures
            r == (self.0 > 0),
    {
        self.0 > 0
    }
}

/// Whole seconds survive a trip through milliseconds.
pub proof fn lemma_seconds_round_trip(s: Seconds)
    requires
        s.0 * 1000 <= u64::MAX,
    ensures
        (((s.0 * 1000) as u64) / 1000) == s.0,
{
}

} // verus!
