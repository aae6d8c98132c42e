//! Logical timestamps: the sole authority for ordering writes to one key.
use vstd::prelude::*;

verus! {

/// A totally ordered pair: physical time first, then the identifier of the
/// writer, which breaks ties between distinct writers.
#[derive(Clone, Copy, Debug, PartialEq, Eq, Structural)]
pub struct Timestamp {
    pub time: u64,
    pub id: u128,
}

impl Timestamp {
    /// Strict order on timestamps: by time, then by writer identifier.
    pub open spec fn precedes(self, other: Timestamp) -> bool {
        self.time < other.time || (self.time == other.time && self.id < other.id)
    }

    pub fn new(time: u64, id: u128) -> (r: Timestamp)
        ensures
            r.time == time,
            r.id == id,
    {
        Timestamp { time, id }
    }

    /// Whether `self` comes strictly before `other`.
    pub fn is_before(&self, other: &Timestamp) -> (r: bool)
        ensures
            r == self.precedes(*other),
    {
        self.time < other.time || (self.time == other.time && self.id < other.id)
    }
}

} // verus!
