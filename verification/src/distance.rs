//! Distances between voicings.

use vstd::prelude::*;

verus! {

/// The distance between two voicings: their semitone distance and their
/// fingering distance. Distances are compared by semitone distance first.
#[derive(Debug, Clone, Copy, PartialEq, Eq, Structural, PartialOrd, Ord, Hash)]
pub struct Distance(pub u8, pub u8);

impl Distance {
    /// The distance with the given semitone and fingering distances.
    pub fn new(semitone_distance: u8, fingering_distance: u8) -> (d: Distance)
        ensures
            d == Distance(semitone_distance, fingering_distance),
    {
        Distance(semitone_distance, fingering_distance)
    }

    /// The semitone distance.
    pub fn semitone_distance(&self) -> (r: u8)
        ensures
            r == self.0,
    {
        self.0
    }

    /// The fingering distance.
    pub fn fingering_distance(&self) -> (r: u8)
        ensures
            r == self.1,
    {
        self.1
    }

    /// `self` is not greater than `other`: semitone distances are compared
    /// first, fingering distances second.
    pub open spec fn at_most(self, other: Distance) -> bool {
        self.0 < other.0 || (self.0 == other.0 && self.1 <= other.1)
    }

    /// Whether `self` is not greater than `other`.
    pub fn is_le(&self, other: &Distance) -> (r: bool)
        ensures
            r == self.at_most(*other),
    {
        self.0 < other.0 || (self.0 == other.0 && self.1 <= other.1)
    }

    /// The sum of two distances, component by component.
    pub fn add(self, other: Distance) -> (d: Distance)
        requires
            self.0 + other.0 <= u8::MAX,
            self.1 + other.1 <= u8::MAX,
        ensures
            d == Distance((self.0 + other.0) as u8, (self.1 + other.1) as u8),
    {
        Distance(self.0 + other.0, self.1 + other.1)
    }
}

impl Default for Distance {
    fn default() -> (d: Distance)
        ensures
            d == Distance(0, 0),
    {
        Distance(0, 0)
    }
}

} // verus!
