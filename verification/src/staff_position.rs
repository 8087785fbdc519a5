//! Staff positions: the seven letters of the note names.

use vstd::prelude::*;

verus! {

/// The vertical position of the notehead on the staff (on a line or in a space).
/// The staff position of an enharmonic note decides whether it is written
/// sharp or flat: pitch class `FSharp` is `F#` on `FPos` and `Gb` on `GPos`.
#[derive(Debug, Clone, Copy, PartialEq, Eq, Structural, PartialOrd, Ord, Hash)]
pub enum StaffPosition {
    CPos,
    DPos,
    EPos,
    FPos,
    GPos,
    APos,
    BPos,
}

impl StaffPosition {
    /// The number of the staff position, between 0 (C) and 6 (B).
    pub open spec fn value(self) -> nat {
        match self {
            StaffPosition::CPos => 0,
            StaffPosition::DPos => 1,
            StaffPosition::EPos => 2,
            StaffPosition::FPos => 3,
            StaffPosition::GPos => 4,
            StaffPosition::APos => 5,
            StaffPosition::BPos => 6,
        }
    }

    /// The staff position of an integer: integers 7 apart give the same position.
    pub open spec fn of(n: int) -> StaffPosition {
        let v = n % 7;
        if v == 0 {
            StaffPosition::CPos
        } else if v == 1 {
            StaffPosition::DPos
        } else if v == 2 {
            StaffPosition::EPos
        } else if v == 3 {
            StaffPosition::FPos
        } else if v == 4 {
            StaffPosition::GPos
        } else if v == 5 {
            StaffPosition::APos
        } else {
            StaffPosition::BPos
        }
    }

    /// The pitch class number of the natural note on this staff position.
    pub open spec fn natural(self) -> nat {
        match self {
            StaffPosition::CPos => 0,
            StaffPosition::DPos => 2,
            StaffPosition::EPos => 4,
            StaffPosition::FPos => 5,
            StaffPosition::GPos => 7,
            StaffPosition::APos => 9,
            StaffPosition::BPos => 11,
        }
    }

    /// Return the number of the staff position (0 to 6).
    pub fn to_int(self) -> (r: u8)
        ensures
            r == self.value(),
    {
        match self {
            StaffPosition::CPos => 0,
            StaffPosition::DPos => 1,
            StaffPosition::EPos => 2,
            StaffPosition::FPos => 3,
            StaffPosition::GPos => 4,
            StaffPosition::APos => 5,
            StaffPosition::BPos => 6,
        }
    }

    /// Convert an integer into a staff position (modulo 7).
    pub fn from_int(n: u8) -> (p: StaffPosition)
        ensures
            p == StaffPosition::of(n as int),
            p.value() == n % 7,
    {
        let v = n % 7;
        if v == 0 {
            StaffPosition::CPos
        } else if v == 1 {
            StaffPosition::DPos
        } else if v == 2 {
            StaffPosition::EPos
        } else if v == 3 {
            StaffPosition::FPos
        } else if v == 4 {
            StaffPosition::GPos
        } else if v == 5 {
            StaffPosition::APos
        } else {
            StaffPosition::BPos
        }
    }

    /// Get the staff position that is `n` positions higher than the current one.
    pub fn add_steps(self, n: u8) -> (p: StaffPosition)
        requires
            self.value() + n <= u8::MAX,
        ensures
            p == StaffPosition::of(self.value() + n),
    {
        StaffPosition::from_int(self.to_int() + n)
    }
}

} // verus!
