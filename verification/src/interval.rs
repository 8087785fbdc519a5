//! Musical intervals.

use vstd::prelude::*;

use crate::text::chars_of;
use crate::{Semitones, StaffSteps};

verus! {

/// Error for strings that cannot be parsed into intervals.
#[derive(Debug)]
pub struct ParseIntervalError {
    pub name: String,
}

impl ParseIntervalError {
    /// The error message.
    pub fn to_string(&self) -> (s: String)
        ensures
            s@ == "Could not parse interval name \""@ + self.name@ + "\""@,
    {
        crate::text::quoted_message("Could not parse interval name \"", &self.name)
    }
}

/// An interval is the difference between two notes.
/// <https://en.wikipedia.org/wiki/Interval_(music)>
#[derive(Debug, Clone, Copy, PartialEq, Eq, Structural, Hash)]
pub enum Interval {
    PerfectUnison,
    MajorSecond,
    MinorThird,
    MajorThird,
    PerfectFourth,
    DiminishedFifth,
    PerfectFifth,
    AugmentedFifth,
    MajorSixth,
    DiminishedSeventh,
    MinorSeventh,
    MajorSeventh,
    MinorNinth,
    MajorNinth,
    AugmentedNinth,
    PerfectEleventh,
    MajorThirteenth,
}

impl Interval {
    /// The number of semitones that the interval encompasses.
    pub open spec fn semitones(self) -> nat {
        match self {
            Interval::PerfectUnison => 0,
            Interval::MajorSecond => 2,
            Interval::MinorThird => 3,
            Interval::MajorThird => 4,
            Interval::PerfectFourth => 5,
            Interval::DiminishedFifth => 6,
            Interval::PerfectFifth => 7,
            Interval::AugmentedFifth => 8,
            Interval::MajorSixth => 9,
            Interval::DiminishedSeventh => 9,
            Interval::MinorSeventh => 10,
            Interval::MajorSeventh => 11,
            Interval::MinorNinth => 13,
            Interval::MajorNinth => 14,
            Interval::AugmentedNinth => 15,
            Interval::PerfectEleventh => 17,
            Interval::MajorThirteenth => 21,
        }
    }

    /// The interval's number: the number of staff positions it encompasses
    /// (counting both ends).
    pub open spec fn number(self) -> nat {
        match self {
            Interval::PerfectUnison => 1,
            Interval::MajorSecond => 2,
            Interval::MinorThird => 3,
            Interval::MajorThird => 3,
            Interval::PerfectFourth => 4,
            Interval::DiminishedFifth => 5,
            Interval::PerfectFifth => 5,
            Interval::AugmentedFifth => 5,
            Interval::MajorSixth => 6,
            Interval::DiminishedSeventh => 7,
            Interval::MinorSeventh => 7,
            Interval::MajorSeventh => 7,
            Interval::MinorNinth => 9,
            Interval::MajorNinth => 9,
            Interval::AugmentedNinth => 9,
            Interval::PerfectEleventh => 11,
            Interval::MajorThirteenth => 13,
        }
    }

    /// The interval denoted by a short name such as `P1`, `m3` or `M13`.
    pub open spec fn parse(s: Seq<char>) -> Option<Interval> {
        if s == seq!['P', '1'] {
            Some(Interval::PerfectUnison)
        } else if s == seq!['M', '2'] {
            Some(Interval::MajorSecond)
        } else if s == seq!['m', '3'] {
            Some(Interval::MinorThird)
        } else if s == seq!['M', '3'] {
            Some(Interval::MajorThird)
        } else if s == seq!['P', '4'] {
            Some(Interval::PerfectFourth)
        } else if s == seq!['d', '5'] {
            Some(Interval::DiminishedFifth)
        } else if s == seq!['P', '5'] {
            Some(Interval::PerfectFifth)
        } else if s == seq!['A', '5'] {
            Some(Interval::AugmentedFifth)
        } else if s == seq!['M', '6'] {
            Some(Interval::MajorSixth)
        } else if s == seq!['d', '7'] {
            Some(Interval::DiminishedSeventh)
        } else if s == seq!['m', '7'] {
            Some(Interval::MinorSeventh)
        } else if s == seq!['M', '7'] {
            Some(Interval::MajorSeventh)
        } else if s == seq!['m', '9'] {
            Some(Interval::MinorNinth)
        } else if s == seq!['M', '9'] {
            Some(Interval::MajorNinth)
        } else if s == seq!['A', '9'] {
            Some(Interval::AugmentedNinth)
        } else if s == seq!['P', '1', '1'] {
            Some(Interval::PerfectEleventh)
        } else if s == seq!['M', '1', '3'] {
            Some(Interval::MajorThirteenth)
        } else {
            None
        }
    }

    /// Return the number of semitones that the interval encompasses.
    pub fn to_semitones(self) -> (r: Semitones)
        ensures
            r == self.semitones(),
    {
        match self {
            Interval::PerfectUnison => 0,
            Interval::MajorSecond => 2,
            Interval::MinorThird => 3,
            Interval::MajorThird => 4,
            Interval::PerfectFourth => 5,
            Interval::DiminishedFifth => 6,
            Interval::PerfectFifth => 7,
            Interval::AugmentedFifth => 8,
            Interval::MajorSixth => 9,
            Interval::DiminishedSeventh => 9,
            Interval::MinorSeventh => 10,
            Interval::MajorSeventh => 11,
            Interval::MinorNinth => 13,
            Interval::MajorNinth => 14,
            Interval::AugmentedNinth => 15,
            Interval::PerfectEleventh => 17,
            Interval::MajorThirteenth => 21,
        }
    }

    /// Return the interval's number. It corresponds to the number of
    /// staff positions that the interval encompasses.
    pub fn to_number(self) -> (r: StaffSteps)
        ensures
            r == self.number(),
    {
        match self {
            Interval::PerfectUnison => 1,
            Interval::MajorSecond => 2,
            Interval::MinorThird => 3,
            Interval::MajorThird => 3,
            Interval::PerfectFourth => 4,
            Interval::DiminishedFifth => 5,
            Interval::PerfectFifth => 5,
            Interval::AugmentedFifth => 5,
            Interval::MajorSixth => 6,
            Interval::DiminishedSeventh => 7,
            Interval::MinorSeventh => 7,
            Interval::MajorSeventh => 7,
            Interval::MinorNinth => 9,
            Interval::MajorNinth => 9,
            Interval::AugmentedNinth => 9,
            Interval::PerfectEleventh => 11,
            Interval::MajorThirteenth => 13,
        }
    }

    /// Parse an interval from its short name (`P1`, `M2`, `m3`, ..., `M13`).
    pub fn from_str(s: &str) -> (r: Result<Interval, ParseIntervalError>)
        ensures
            match r {
                Ok(i) => Interval::parse(s@) == Some(i),
                Err(e) => Interval::parse(s@) is None && e.name@ == s@,
            },
    {
        let cs = chars_of(s);
        let res = Interval::parse_chars(&cs);
        match res {
            Some(i) => Ok(i),
            None => Err(ParseIntervalError { name: crate::text::string_from(s) }),
        }
    }

    fn parse_chars(cs: &Vec<char>) -> (r: Option<Interval>)
        ensures
            r == Interval::parse(cs@),
    {
        let n = cs.len();
        if n == 2 {
            let a = cs[0];
            let b = cs[1];
            let r = if a == 'P' && b == '1' {
                Some(Interval::PerfectUnison)
            } else if a == 'M' && b == '2' {
                Some(Interval::MajorSecond)
            } else if a == 'm' && b == '3' {
                Some(Interval::MinorThird)
            } else if a == 'M' && b == '3' {
                Some(Interval::MajorThird)
            } else if a == 'P' && b == '4' {
                Some(Interval::PerfectFourth)
            } else if a == 'd' && b == '5' {
                Some(Interval::DiminishedFifth)
            } else if a == 'P' && b == '5' {
                Some(Interval::PerfectFifth)
            } else if a == 'A' && b == '5' {
                Some(Interval::AugmentedFifth)
            } else if a == 'M' && b == '6' {
                Some(Interval::MajorSixth)
            } else if a == 'd' && b == '7' {
                Some(Interval::DiminishedSeventh)
            } else if a == 'm' && b == '7' {
                Some(Interval::MinorSeventh)
            } else if a == 'M' && b == '7' {
                Some(Interval::MajorSeventh)
            } else if a == 'm' && b == '9' {
                Some(Interval::MinorNinth)
            } else if a == 'M' && b == '9' {
                Some(Interval::MajorNinth)
            } else if a == 'A' && b == '9' {
                Some(Interval::AugmentedNinth)
            } else {
                None
            };
            assert(cs@ =~= seq![a, b]);
            r
        } else if n == 3 {
            let a = cs[0];
            let b = cs[1];
            let c = cs[2];
            assert(cs@ =~= seq![a, b, c]);
            if a == 'P' && b == '1' && c == '1' {
                Some(Interval::PerfectEleventh)
            } else if a == 'M' && b == '1' && c == '3' {
                Some(Interval::MajorThirteenth)
            } else {
                None
            }
        } else {
            None
        }
    }
}

} // verus!
