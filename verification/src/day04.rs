//! Cleanup-assignment intervals.
use vstd::prelude::*;

verus! {

/// A closed interval of section numbers.
#[derive(Copy, Clone, PartialEq, Eq, Structural, Debug)]
pub struct Interval(pub u64, pub u64);

impl Interval {
    pub fn new(min: u64, max: u64) -> (r: Interval)
        ensures
            r == (Interval(min, max)),
    {
        Interval(min, max)
    }

    /// Whether one of the two intervals contains the other.
    pub fn contains_or_contained(&self, other: Interval) -> (r: bool)
        ensures
            r == ((self.0 <= other.0 && self.1 >= other.1) || (self.0 >= other.0 && self.1
                <= other.1)),
    {
        (self.0 <= other.0 && self.1 >= other.1) || (self.0 >= other.0 && self.1 <= other.1)
    }

    /// Whether the two intervals share at least one section.
    pub fn overlaps(&self, other: Interval) -> (r: bool)
        ensures
            r == (self.0 <= other.1 && self.1 >= other.0),
    {
        self.0 <= other.1 && self.1 >= other.0
    }
}

} // verus!
