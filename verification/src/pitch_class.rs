//! Pitch classes and the arithmetic on them (modulo one octave).

use vstd::prelude::*;

verus! {

/// A pitch class is "a set of all pitches that are a whole number of octaves
/// apart, e.g., the pitch class C consists of the Cs in all octaves."
///
/// Our 12 pitch classes are represented with integers from 0 to 11.
#[derive(Debug, Clone, Copy, PartialEq, Eq, Structural, PartialOrd, Ord, Hash)]
pub enum PitchClass {
    C,
    CSharp,
    D,
    DSharp,
    E,
    F,
    FSharp,
    G,
    GSharp,
    A,
    ASharp,
    B,
}

impl PitchClass {
    /// The number of the pitch class, between 0 (C) and 11 (B).
    pub open spec fn value(self) -> nat {
        match self {
            PitchClass::C => 0,
            PitchClass::CSharp => 1,
            PitchClass::D => 2,
            PitchClass::DSharp => 3,
            PitchClass::E => 4,
            PitchClass::F => 5,
            PitchClass::FSharp => 6,
            PitchClass::G => 7,
            PitchClass::GSharp => 8,
            PitchClass::A => 9,
            PitchClass::ASharp => 10,
            PitchClass::B => 11,
        }
    }

    /// The pitch class of an integer: integers an octave (12) apart
    /// belong to the same pitch class.
    pub open spec fn of(n: int) -> PitchClass {
        let v = n % 12;
        if v == 0 {
            PitchClass::C
        } else if v == 1 {
            PitchClass::CSharp
        } else if v == 2 {
            PitchClass::D
        } else if v == 3 {
            PitchClass::DSharp
        } else if v == 4 {
            PitchClass::E
        } else if v == 5 {
            PitchClass::F
        } else if v == 6 {
            PitchClass::FSharp
        } else if v == 7 {
            PitchClass::G
        } else if v == 8 {
            PitchClass::GSharp
        } else if v == 9 {
            PitchClass::A
        } else if v == 10 {
            PitchClass::ASharp
        } else {
            PitchClass::B
        }
    }

    /// Return the number of the pitch class (0 to 11).
    pub fn to_int(self) -> (r: u8)
        ensures
            r == self.value(),
    {
        match self {
            PitchClass::C => 0,
            PitchClass::CSharp => 1,
            PitchClass::D => 2,
            PitchClass::DSharp => 3,
            PitchClass::E => 4,
            PitchClass::F => 5,
            PitchClass::FSharp => 6,
            PitchClass::G => 7,
            PitchClass::GSharp => 8,
            PitchClass::A => 9,
            PitchClass::ASharp => 10,
            PitchClass::B => 11,
        }
    }

    /// Convert an integer into a pitch class.
    ///
    /// All instances of the same pitch class in different octaves are mapped
    /// to the same pitch class, e.g. 12, 24, 36 all correspond to C.
    pub fn from_int(n: u8) -> (p: PitchClass)
        ensures
            p == PitchClass::of(n as int),
            p.value() == n % 12,
    {
        let v = n % 12;
        if v == 0 {
            PitchClass::C
        } else if v == 1 {
            PitchClass::CSharp
        } else if v == 2 {
            PitchClass::D
        } else if v == 3 {
            PitchClass::DSharp
        } else if v == 4 {
            PitchClass::E
        } else if v == 5 {
            PitchClass::F
        } else if v == 6 {
            PitchClass::FSharp
        } else if v == 7 {
            PitchClass::G
        } else if v == 8 {
            PitchClass::GSharp
        } else if v == 9 {
            PitchClass::A
        } else if v == 10 {
            PitchClass::ASharp
        } else {
            PitchClass::B
        }
    }

    /// Get the pitch class that is `n` semitones higher than the current one.
    pub fn add_semitones(self, n: u8) -> (p: PitchClass)
        requires
            self.value() + n <= u8::MAX,
        ensures
            p == PitchClass::of(self.value() + n),
            p.value() == (self.value() + n) % 12,
    {
        let v = self.to_int() + n;
        PitchClass::from_int(v)
    }

    /// Get the difference between two pitch classes in semitones, assuming
    /// that `self` is higher than `other` by at most one octave.
    /// For example, D - C is 2 and D - A is 5.
    pub fn diff(self, other: PitchClass) -> (d: u8)
        ensures
            d == (self.value() - other.value()) % 12,
            d < 12,
    {
        let a = self.to_int();
        let b = other.to_int();
        if a >= b {
            a - b
        } else {
            a + 12 - b
        }
    }

    /// Get the pitch class that is `n` semitones lower than the current one.
    pub fn sub_semitones(self, n: u8) -> (p: PitchClass)
        ensures
            p == PitchClass::of(self.value() - n),
            p.value() == (self.value() - n) % 12,
    {
        let d = self.diff(PitchClass::from_int(n));
        PitchClass::from_int(d)
    }
}

/// Every pitch class is the pitch class of its own number.
pub proof fn lemma_of_value(p: PitchClass)
    ensures
        PitchClass::of(p.value() as int) == p,
        p.value() < 12,
{
}

/// The pitch class of an integer has that integer's remainder modulo 12 as its number.
pub proof fn lemma_value_of(n: int)
    ensures
        PitchClass::of(n).value() == n % 12,
{
}

/// Going up `n` semitones and then down `n` semitones gives back the pitch class.
pub proof fn law_add_then_sub(p: PitchClass, n: u8)
    requires
        p.value() + n <= u8::MAX,
    ensures
        PitchClass::of(PitchClass::of(p.value() + n).value() - n) == p,
{
    lemma_value_of(p.value() + n);
    assert(((p.value() + n) % 12 - n) % 12 == p.value() as int) by (nonlinear_arith)
        requires p.value() < 12;
}

/// The difference between the pitch class `n` semitones above `p` and `p` is `n` modulo 12.
pub proof fn law_add_then_diff(p: PitchClass, n: u8)
    requires
        p.value() + n <= u8::MAX,
    ensures
        (PitchClass::of(p.value() + n).value() - p.value()) % 12 == n % 12,
{
    lemma_value_of(p.value() + n);
    assert(((p.value() + n) % 12 - p.value()) % 12 == n % 12) by (nonlinear_arith)
        requires p.value() < 12;
}

} // verus!
