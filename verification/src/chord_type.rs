//! Chord types: the intervals a chord is made of and the symbols that denote it.

use vstd::prelude::*;

use crate::interval::Interval;
use crate::pitch_class::PitchClass;
use crate::text::{chars_of, str_eq_chars};
use crate::STRING_COUNT;

verus! {

/// The type of a chord, depending on the intervals it contains.
#[derive(Debug, Clone, Copy, PartialEq, Eq, Structural, PartialOrd, Ord, Hash)]
pub enum ChordType {
    Major,
    MajorSeventh,
    MajorNinth,
    MajorEleventh,
    MajorThirteenth,
    MajorSixth,
    SixthNinth,
    DominantSeventh,
    DominantNinth,
    DominantEleventh,
    DominantThirteenth,
    DominantSeventhFlatNinth,
    DominantSeventhSharpNinth,
    DominantSeventhFlatFifth,
    SuspendedFourth,
    SuspendedSecond,
    DominantSeventhSuspendedFourth,
    DominantSeventhSuspendedSecond,
    Minor,
    MinorSeventh,
    MinorMajorSeventh,
    MinorSixth,
    MinorNinth,
    MinorEleventh,
    MinorThirteenth,
    Diminished,
    DiminishedSeventh,
    HalfDiminishedSeventh,
    Fifth,
    Augmented,
    AugmentedSeventh,
    AugmentedMajorSeventh,
    AddedNinth,
    AddedFourth,
}

/// All chord types, in the order in which they are listed and tried.
pub open spec fn all_chord_types() -> Seq<ChordType> {
    seq![
        ChordType::Major,
        ChordType::MajorSeventh,
        ChordType::MajorNinth,
        ChordType::MajorEleventh,
        ChordType::MajorThirteenth,
        ChordType::MajorSixth,
        ChordType::SixthNinth,
        ChordType::DominantSeventh,
        ChordType::DominantNinth,
        ChordType::DominantEleventh,
        ChordType::DominantThirteenth,
        ChordType::DominantSeventhFlatNinth,
        ChordType::DominantSeventhSharpNinth,
        ChordType::DominantSeventhFlatFifth,
        ChordType::SuspendedFourth,
        ChordType::SuspendedSecond,
        ChordType::DominantSeventhSuspendedFourth,
        ChordType::DominantSeventhSuspendedSecond,
        ChordType::Minor,
        ChordType::MinorSeventh,
        ChordType::MinorMajorSeventh,
        ChordType::MinorSixth,
        ChordType::MinorNinth,
        ChordType::MinorEleventh,
        ChordType::MinorThirteenth,
        ChordType::Diminished,
        ChordType::DiminishedSeventh,
        ChordType::HalfDiminishedSeventh,
        ChordType::Fifth,
        ChordType::Augmented,
        ChordType::AugmentedSeventh,
        ChordType::AugmentedMajorSeventh,
        ChordType::AddedNinth,
        ChordType::AddedFourth,
    ]
}

/// The number of a chord type in the list of all chord types.
pub open spec fn chord_type_index(ct: ChordType) -> nat {
    match ct {
        ChordType::Major => 0,
        ChordType::MajorSeventh => 1,
        ChordType::MajorNinth => 2,
        ChordType::MajorEleventh => 3,
        ChordType::MajorThirteenth => 4,
        ChordType::MajorSixth => 5,
        ChordType::SixthNinth => 6,
        ChordType::DominantSeventh => 7,
        ChordType::DominantNinth => 8,
        ChordType::DominantEleventh => 9,
        ChordType::DominantThirteenth => 10,
        ChordType::DominantSeventhFlatNinth => 11,
        ChordType::DominantSeventhSharpNinth => 12,
        ChordType::DominantSeventhFlatFifth => 13,
        ChordType::SuspendedFourth => 14,
        ChordType::SuspendedSecond => 15,
        ChordType::DominantSeventhSuspendedFourth => 16,
        ChordType::DominantSeventhSuspendedSecond => 17,
        ChordType::Minor => 18,
        ChordType::MinorSeventh => 19,
        ChordType::MinorMajorSeventh => 20,
        ChordType::MinorSixth => 21,
        ChordType::MinorNinth => 22,
        ChordType::MinorEleventh => 23,
        ChordType::MinorThirteenth => 24,
        ChordType::Diminished => 25,
        ChordType::DiminishedSeventh => 26,
        ChordType::HalfDiminishedSeventh => 27,
        ChordType::Fifth => 28,
        ChordType::Augmented => 29,
        ChordType::AugmentedSeventh => 30,
        ChordType::AugmentedMajorSeventh => 31,
        ChordType::AddedNinth => 32,
        ChordType::AddedFourth => 33,
    }
}

impl ChordType {
    /// The intervals the chord type consists of.
    pub open spec fn interval_seq(self) -> Seq<Interval> {
        match self {
            ChordType::Major => seq![Interval::PerfectUnison, Interval::MajorThird, Interval::PerfectFifth],
            ChordType::MajorSeventh => seq![Interval::PerfectUnison, Interval::MajorThird, Interval::PerfectFifth, Interval::MajorSeventh],
            ChordType::MajorNinth => seq![Interval::PerfectUnison, Interval::MajorThird, Interval::PerfectFifth, Interval::MajorSeventh, Interval::MajorNinth],
            ChordType::MajorEleventh => seq![Interval::PerfectUnison, Interval::MajorThird, Interval::PerfectFifth, Interval::MajorSeventh, Interval::MajorNinth, Interval::PerfectEleventh],
            ChordType::MajorThirteenth => seq![Interval::PerfectUnison, Interval::MajorThird, Interval::PerfectFifth, Interval::MajorSeventh, Interval::MajorNinth, Interval::PerfectEleventh, Interval::MajorThirteenth],
            ChordType::MajorSixth => seq![Interval::PerfectUnison, Interval::MajorThird, Interval::PerfectFifth, Interval::MajorSixth],
            ChordType::SixthNinth => seq![Interval::PerfectUnison, Interval::MajorThird, Interval::PerfectFifth, Interval::MajorSixth, Interval::MajorNinth],
            ChordType::DominantSeventh => seq![Interval::PerfectUnison, Interval::MajorThird, Interval::PerfectFifth, Interval::MinorSeventh],
            ChordType::DominantNinth => seq![Interval::PerfectUnison, Interval::MajorThird, Interval::PerfectFifth, Interval::MinorSeventh, Interval::MajorNinth],
            ChordType::DominantEleventh => seq![Interval::PerfectUnison, Interval::MajorThird, Interval::PerfectFifth, Interval::MinorSeventh, Interval::MajorNinth, Interval::PerfectEleventh],
            ChordType::DominantThirteenth => seq![Interval::PerfectUnison, Interval::MajorThird, Interval::PerfectFifth, Interval::MinorSeventh, Interval::MajorNinth, Interval::PerfectEleventh, Interval::MajorThirteenth],
            ChordType::DominantSeventhFlatNinth => seq![Interval::PerfectUnison, Interval::MajorThird, Interval::PerfectFifth, Interval::MinorSeventh, Interval::MinorNinth],
            ChordType::DominantSeventhSharpNinth => seq![Interval::PerfectUnison, Interval::MajorThird, Interval::PerfectFifth, Interval::MinorSeventh, Interval::AugmentedNinth],
            ChordType::DominantSeventhFlatFifth => seq![Interval::PerfectUnison, Interval::MajorThird, Interval::DiminishedFifth, Interval::MinorSeventh],
            ChordType::SuspendedFourth => seq![Interval::PerfectUnison, Interval::PerfectFourth, Interval::PerfectFifth],
            ChordType::SuspendedSecond => seq![Interval::PerfectUnison, Interval::MajorSecond, Interval::PerfectFifth],
            ChordType::DominantSeventhSuspendedFourth => seq![Interval::PerfectUnison, Interval::PerfectFourth, Interval::PerfectFifth, Interval::MinorSeventh],
            ChordType::DominantSeventhSuspendedSecond => seq![Interval::PerfectUnison, Interval::MajorSecond, Interval::PerfectFifth, Interval::MinorSeventh],
            ChordType::Minor => seq![Interval::PerfectUnison, Interval::MinorThird, Interval::PerfectFifth],
            ChordType::MinorSeventh => seq![Interval::PerfectUnison, Interval::MinorThird, Interval::PerfectFifth, Interval::MinorSeventh],
            ChordType::MinorMajorSeventh => seq![Interval::PerfectUnison, Interval::MinorThird, Interval::PerfectFifth, Interval::MajorSeventh],
            ChordType::MinorSixth => seq![Interval::PerfectUnison, Interval::MinorThird, Interval::PerfectFifth, Interval::MajorSixth],
            ChordType::MinorNinth => seq![Interval::PerfectUnison, Interval::MinorThird, Interval::PerfectFifth, Interval::MinorSeventh, Interval::MajorNinth],
            ChordType::MinorEleventh => seq![Interval::PerfectUnison, Interval::MinorThird, Interval::PerfectFifth, Interval::MinorSeventh, Interval::MajorNinth, Interval::PerfectEleventh],
            ChordType::MinorThirteenth => seq![Interval::PerfectUnison, Interval::MinorThird, Interval::PerfectFifth, Interval::MinorSeventh, Interval::MajorNinth, Interval::PerfectEleventh, Interval::MajorThirteenth],
            ChordType::Diminished => seq![Interval::PerfectUnison, Interval::MinorThird, Interval::DiminishedFifth],
            ChordType::DiminishedSeventh => seq![Interval::PerfectUnison, Interval::MinorThird, Interval::DiminishedFifth, Interval::DiminishedSeventh],
            ChordType::HalfDiminishedSeventh => seq![Interval::PerfectUnison, Interval::MinorThird, Interval::DiminishedFifth, Interval::MinorSeventh],
            ChordType::Fifth => seq![Interval::PerfectUnison, Interval::PerfectFifth],
            ChordType::Augmented => seq![Interval::PerfectUnison, Interval::MajorThird, Interval::AugmentedFifth],
            ChordType::AugmentedSeventh => seq![Interval::PerfectUnison, Interval::MajorThird, Interval::AugmentedFifth, Interval::MinorSeventh],
            ChordType::AugmentedMajorSeventh => seq![Interval::PerfectUnison, Interval::MajorThird, Interval::AugmentedFifth, Interval::MajorSeventh],
            ChordType::AddedNinth => seq![Interval::PerfectUnison, Interval::MajorThird, Interval::PerfectFifth, Interval::MajorNinth],
            ChordType::AddedFourth => seq![Interval::PerfectUnison, Interval::MajorThird, Interval::PerfectFourth, Interval::PerfectFifth],
        }
    }

    /// The intervals that may be left out when the chord is played.
    pub open spec fn optional_seq(self) -> Seq<Interval> {
        match self {
            ChordType::MajorSeventh => seq![Interval::PerfectFifth],
            ChordType::MajorNinth => seq![Interval::PerfectFifth],
            ChordType::MajorEleventh => seq![Interval::PerfectFifth, Interval::MajorNinth],
            ChordType::MajorThirteenth => seq![Interval::PerfectFifth, Interval::MajorNinth, Interval::PerfectEleventh],
            ChordType::MajorSixth => seq![Interval::PerfectFifth],
            ChordType::SixthNinth => seq![Interval::PerfectFifth],
            ChordType::DominantSeventh => seq![Interval::PerfectFifth],
            ChordType::DominantNinth => seq![Interval::PerfectFifth],
            ChordType::DominantEleventh => seq![Interval::PerfectFifth, Interval::MajorNinth],
            ChordType::DominantThirteenth => seq![Interval::PerfectFifth, Interval::MajorNinth, Interval::PerfectEleventh],
            ChordType::DominantSeventhFlatNinth => seq![Interval::PerfectFifth],
            ChordType::DominantSeventhSharpNinth => seq![Interval::PerfectFifth],
            ChordType::SuspendedFourth => seq![Interval::PerfectFifth],
            ChordType::SuspendedSecond => seq![Interval::PerfectFifth],
            ChordType::DominantSeventhSuspendedFourth => seq![Interval::PerfectFifth],
            ChordType::DominantSeventhSuspendedSecond => seq![Interval::PerfectFifth],
            ChordType::MinorSeventh => seq![Interval::PerfectFifth],
            ChordType::MinorMajorSeventh => seq![Interval::PerfectFifth],
            ChordType::MinorSixth => seq![Interval::PerfectFifth],
            ChordType::MinorNinth => seq![Interval::PerfectFifth],
            ChordType::MinorEleventh => seq![Interval::PerfectFifth, Interval::MajorNinth],
            ChordType::MinorThirteenth => seq![Interval::PerfectFifth, Interval::MajorNinth, Interval::PerfectEleventh],
            ChordType::AddedNinth => seq![Interval::PerfectFifth],
            ChordType::AddedFourth => seq![Interval::PerfectFifth],
            _ => Seq::empty(),
        }
    }

    /// The intervals that must be played: those that are not optional, in order.
    pub open spec fn required_seq(self) -> Seq<Interval> {
        self.interval_seq().filter(|i: Interval| !self.optional_seq().contains(i))
    }

    /// The symbols that denote the chord type after a root note, the first
    /// one being the preferred one.
    pub open spec fn symbol_seq(self) -> Seq<Seq<char>> {
        match self {
            ChordType::Major => seq![Seq::<char>::empty(), seq!['m', 'a', 'j'], seq!['M']],
            ChordType::MajorSeventh => seq![seq!['m', 'a', 'j', '7'], seq!['M', '7']],
            ChordType::MajorNinth => seq![seq!['m', 'a', 'j', '9'], seq!['M', '9']],
            ChordType::MajorEleventh => seq![seq!['m', 'a', 'j', '1', '1'], seq!['M', '1', '1']],
            ChordType::MajorThirteenth => seq![seq!['m', 'a', 'j', '1', '3'], seq!['M', '1', '3']],
            ChordType::MajorSixth => seq![seq!['6'], seq!['m', 'a', 'j', '6'], seq!['M', '6']],
            ChordType::SixthNinth => seq![seq!['6', '/', '9'], seq!['m', 'a', 'j', '6', '/', '9'], seq!['M', '6', '/', '9']],
            ChordType::DominantSeventh => seq![seq!['7'], seq!['d', 'o', 'm']],
            ChordType::DominantNinth => seq![seq!['9']],
            ChordType::DominantEleventh => seq![seq!['1', '1']],
            ChordType::DominantThirteenth => seq![seq!['1', '3']],
            ChordType::DominantSeventhFlatNinth => seq![seq!['7', 'b', '9']],
            ChordType::DominantSeventhSharpNinth => seq![seq!['7', '#', '9']],
            ChordType::DominantSeventhFlatFifth => seq![seq!['7', 'b', '5'], seq!['7', 'd', 'i', 'm', '5']],
            ChordType::SuspendedFourth => seq![seq!['s', 'u', 's', '4'], seq!['s', 'u', 's']],
            ChordType::SuspendedSecond => seq![seq!['s', 'u', 's', '2']],
            ChordType::DominantSeventhSuspendedFourth => seq![seq!['7', 's', 'u', 's', '4'], seq!['7', 's', 'u', 's']],
            ChordType::DominantSeventhSuspendedSecond => seq![seq!['7', 's', 'u', 's', '2']],
            ChordType::Minor => seq![seq!['m'], seq!['m', 'i', 'n']],
            ChordType::MinorSeventh => seq![seq!['m', '7'], seq!['m', 'i', 'n', '7']],
            ChordType::MinorMajorSeventh => seq![seq!['m', 'M', 'a', 'j', '7'], seq!['m', 'M', '7'], seq!['m', 'i', 'n', 'M', 'a', 'j', '7']],
            ChordType::MinorSixth => seq![seq!['m', '6'], seq!['m', 'i', 'n', '6']],
            ChordType::MinorNinth => seq![seq!['m', '9'], seq!['m', 'i', 'n', '9']],
            ChordType::MinorEleventh => seq![seq!['m', '1', '1'], seq!['m', 'i', 'n', '1', '1']],
            ChordType::MinorThirteenth => seq![seq!['m', '1', '3'], seq!['m', 'i', 'n', '1', '3']],
            ChordType::Diminished => seq![seq!['d', 'i', 'm'], seq!['o']],
            ChordType::DiminishedSeventh => seq![seq!['d', 'i', 'm', '7'], seq!['o', '7']],
            ChordType::HalfDiminishedSeventh => seq![seq!['m', '7', 'b', '5'], seq!['ø'], seq!['ø', '7']],
            ChordType::Fifth => seq![seq!['5']],
            ChordType::Augmented => seq![seq!['a', 'u', 'g'], seq!['+']],
            ChordType::AugmentedSeventh => seq![seq!['a', 'u', 'g', '7'], seq!['+', '7'], seq!['7', '#', '5']],
            ChordType::AugmentedMajorSeventh => seq![seq!['a', 'u', 'g', 'M', 'a', 'j', '7'], seq!['+', 'M', '7']],
            ChordType::AddedNinth => seq![seq!['a', 'd', 'd', '9'], seq!['a', 'd', 'd', '2']],
            ChordType::AddedFourth => seq![seq!['a', 'd', 'd', '4']],
        }
    }

    /// The symbols of the chord type, spelled out character by character.
    pub open spec fn has_symbol(self, s: Seq<char>) -> bool {
        match self {
            ChordType::Major => (s.len() == 0) || (s.len() == 3 && s[0] == 'm' && s[1] == 'a' && s[2] == 'j') || (s.len() == 1 && s[0] == 'M'),
            ChordType::MajorSeventh => (s.len() == 4 && s[0] == 'm' && s[1] == 'a' && s[2] == 'j' && s[3] == '7') || (s.len() == 2 && s[0] == 'M' && s[1] == '7'),
            ChordType::MajorNinth => (s.len() == 4 && s[0] == 'm' && s[1] == 'a' && s[2] == 'j' && s[3] == '9') || (s.len() == 2 && s[0] == 'M' && s[1] == '9'),
            ChordType::MajorEleventh => (s.len() == 5 && s[0] == 'm' && s[1] == 'a' && s[2] == 'j' && s[3] == '1' && s[4] == '1') || (s.len() == 3 && s[0] == 'M' && s[1] == '1' && s[2] == '1'),
            ChordType::MajorThirteenth => (s.len() == 5 && s[0] == 'm' && s[1] == 'a' && s[2] == 'j' && s[3] == '1' && s[4] == '3') || (s.len() == 3 && s[0] == 'M' && s[1] == '1' && s[2] == '3'),
            ChordType::MajorSixth => (s.len() == 1 && s[0] == '6') || (s.len() == 4 && s[0] == 'm' && s[1] == 'a' && s[2] == 'j' && s[3] == '6') || (s.len() == 2 && s[0] == 'M' && s[1] == '6'),
            ChordType::SixthNinth => (s.len() == 3 && s[0] == '6' && s[1] == '/' && s[2] == '9') || (s.len() == 6 && s[0] == 'm' && s[1] == 'a' && s[2] == 'j' && s[3] == '6' && s[4] == '/' && s[5] == '9') || (s.len() == 4 && s[0] == 'M' && s[1] == '6' && s[2] == '/' && s[3] == '9'),
            ChordType::DominantSeventh => (s.len() == 1 && s[0] == '7') || (s.len() == 3 && s[0] == 'd' && s[1] == 'o' && s[2] == 'm'),
            ChordType::DominantNinth => (s.len() == 1 && s[0] == '9'),
            ChordType::DominantEleventh => (s.len() == 2 && s[0] == '1' && s[1] == '1'),
            ChordType::DominantThirteenth => (s.len() == 2 && s[0] == '1' && s[1] == '3'),
            ChordType::DominantSeventhFlatNinth => (s.len() == 3 && s[0] == '7' && s[1] == 'b' && s[2] == '9'),
            ChordType::DominantSeventhSharpNinth => (s.len() == 3 && s[0] == '7' && s[1] == '#' && s[2] == '9'),
            ChordType::DominantSeventhFlatFifth => (s.len() == 3 && s[0] == '7' && s[1] == 'b' && s[2] == '5') || (s.len() == 5 && s[0] == '7' && s[1] == 'd' && s[2] == 'i' && s[3] == 'm' && s[4] == '5'),
            ChordType::SuspendedFourth => (s.len() == 4 && s[0] == 's' && s[1] == 'u' && s[2] == 's' && s[3] == '4') || (s.len() == 3 && s[0] == 's' && s[1] == 'u' && s[2] == 's'),
            ChordType::SuspendedSecond => (s.len() == 4 && s[0] == 's' && s[1] == 'u' && s[2] == 's' && s[3] == '2'),
            ChordType::DominantSeventhSuspendedFourth => (s.len() == 5 && s[0] == '7' && s[1] == 's' && s[2] == 'u' && s[3] == 's' && s[4] == '4') || (s.len() == 4 && s[0] == '7' && s[1] == 's' && s[2] == 'u' && s[3] == 's'),
            ChordType::DominantSeventhSuspendedSecond => (s.len() == 5 && s[0] == '7' && s[1] == 's' && s[2] == 'u' && s[3] == 's' && s[4] == '2'),
            ChordType::Minor => (s.len() == 1 && s[0] == 'm') || (s.len() == 3 && s[0] == 'm' && s[1] == 'i' && s[2] == 'n'),
            ChordType::MinorSeventh => (s.len() == 2 && s[0] == 'm' && s[1] == '7') || (s.len() == 4 && s[0] == 'm' && s[1] == 'i' && s[2] == 'n' && s[3] == '7'),
            ChordType::MinorMajorSeventh => (s.len() == 5 && s[0] == 'm' && s[1] == 'M' && s[2] == 'a' && s[3] == 'j' && s[4] == '7') || (s.len() == 3 && s[0] == 'm' && s[1] == 'M' && s[2] == '7') || (s.len() == 7 && s[0] == 'm' && s[1] == 'i' && s[2] == 'n' && s[3] == 'M' && s[4] == 'a' && s[5] == 'j' && s[6] == '7'),
            ChordType::MinorSixth => (s.len() == 2 && s[0] == 'm' && s[1] == '6') || (s.len() == 4 && s[0] == 'm' && s[1] == 'i' && s[2] == 'n' && s[3] == '6'),
            ChordType::MinorNinth => (s.len() == 2 && s[0] == 'm' && s[1] == '9') || (s.len() == 4 && s[0] == 'm' && s[1] == 'i' && s[2] == 'n' && s[3] == '9'),
            ChordType::MinorEleventh => (s.len() == 3 && s[0] == 'm' && s[1] == '1' && s[2] == '1') || (s.len() == 5 && s[0] == 'm' && s[1] == 'i' && s[2] == 'n' && s[3] == '1' && s[4] == '1'),
            ChordType::MinorThirteenth => (s.len() == 3 && s[0] == 'm' && s[1] == '1' && s[2] == '3') || (s.len() == 5 && s[0] == 'm' && s[1] == 'i' && s[2] == 'n' && s[3] == '1' && s[4] == '3'),
            ChordType::Diminished => (s.len() == 3 && s[0] == 'd' && s[1] == 'i' && s[2] == 'm') || (s.len() == 1 && s[0] == 'o'),
            ChordType::DiminishedSeventh => (s.len() == 4 && s[0] == 'd' && s[1] == 'i' && s[2] == 'm' && s[3] == '7') || (s.len() == 2 && s[0] == 'o' && s[1] == '7'),
            ChordType::HalfDiminishedSeventh => (s.len() == 4 && s[0] == 'm' && s[1] == '7' && s[2] == 'b' && s[3] == '5') || (s.len() == 1 && s[0] == 'ø') || (s.len() == 2 && s[0] == 'ø' && s[1] == '7'),
            ChordType::Fifth => (s.len() == 1 && s[0] == '5'),
            ChordType::Augmented => (s.len() == 3 && s[0] == 'a' && s[1] == 'u' && s[2] == 'g') || (s.len() == 1 && s[0] == '+'),
            ChordType::AugmentedSeventh => (s.len() == 4 && s[0] == 'a' && s[1] == 'u' && s[2] == 'g' && s[3] == '7') || (s.len() == 2 && s[0] == '+' && s[1] == '7') || (s.len() == 3 && s[0] == '7' && s[1] == '#' && s[2] == '5'),
            ChordType::AugmentedMajorSeventh => (s.len() == 7 && s[0] == 'a' && s[1] == 'u' && s[2] == 'g' && s[3] == 'M' && s[4] == 'a' && s[5] == 'j' && s[6] == '7') || (s.len() == 3 && s[0] == '+' && s[1] == 'M' && s[2] == '7'),
            ChordType::AddedNinth => (s.len() == 4 && s[0] == 'a' && s[1] == 'd' && s[2] == 'd' && s[3] == '9') || (s.len() == 4 && s[0] == 'a' && s[1] == 'd' && s[2] == 'd' && s[3] == '2'),
            ChordType::AddedFourth => (s.len() == 4 && s[0] == 'a' && s[1] == 'd' && s[2] == 'd' && s[3] == '4'),
        }
    }

    /// The name of the chord type, as in "major 7th".
    pub open spec fn name(self) -> Seq<char> {
        match self {
            ChordType::Major => "major"@,
            ChordType::MajorSeventh => "major 7th"@,
            ChordType::MajorNinth => "major 9th"@,
            ChordType::MajorEleventh => "major 11th"@,
            ChordType::MajorThirteenth => "major 13th"@,
            ChordType::MajorSixth => "major 6th"@,
            ChordType::SixthNinth => "6th/9th"@,
            ChordType::DominantSeventh => "dominant 7th"@,
            ChordType::DominantNinth => "dominant 9th"@,
            ChordType::DominantEleventh => "dominant 11th"@,
            ChordType::DominantThirteenth => "dominant 13th"@,
            ChordType::DominantSeventhFlatNinth => "dominant 7th flat 9th"@,
            ChordType::DominantSeventhSharpNinth => "dominant 7th sharp 9th"@,
            ChordType::DominantSeventhFlatFifth => "dominant 7th flat 5th"@,
            ChordType::SuspendedFourth => "suspended 4th"@,
            ChordType::SuspendedSecond => "suspended 2nd"@,
            ChordType::DominantSeventhSuspendedFourth => "dominant 7th suspended 4th"@,
            ChordType::DominantSeventhSuspendedSecond => "dominant 7th suspended 2nd"@,
            ChordType::Minor => "minor"@,
            ChordType::MinorSeventh => "minor 7th"@,
            ChordType::MinorMajorSeventh => "minor/major 7th"@,
            ChordType::MinorSixth => "minor 6th"@,
            ChordType::MinorNinth => "minor 9th"@,
            ChordType::MinorEleventh => "minor 11th"@,
            ChordType::MinorThirteenth => "minor 13th"@,
            ChordType::Diminished => "diminished"@,
            ChordType::DiminishedSeventh => "diminished 7th"@,
            ChordType::HalfDiminishedSeventh => "half-diminished 7th"@,
            ChordType::Fifth => "5th"@,
            ChordType::Augmented => "augmented"@,
            ChordType::AugmentedSeventh => "augmented 7th"@,
            ChordType::AugmentedMajorSeventh => "augmented major 7th"@,
            ChordType::AddedNinth => "added 9th"@,
            ChordType::AddedFourth => "added 4th"@,
        }
    }
}

/// The first chord type, from the `i`-th one on in the order of all chord types,
/// that has `s` among its symbols.
pub open spec fn chord_type_of_symbol_from(s: Seq<char>, i: nat) -> Option<ChordType>
    decreases 34 - i,
{
    if i >= 34 {
        None
    } else if all_chord_types()[i as int].symbol_seq().contains(s) {
        Some(all_chord_types()[i as int])
    } else {
        chord_type_of_symbol_from(s, i + 1)
    }
}

/// The first chord type (in the order of all chord types) that has `s` among its symbols.
pub open spec fn chord_type_of_symbol(s: Seq<char>) -> Option<ChordType> {
    chord_type_of_symbol_from(s, 0)
}

/// The first chord type, from number `i` on, whose symbols spell `s`.
pub open spec fn spelled_type_from(s: Seq<char>, i: nat) -> Option<ChordType>
    decreases 34 - i,
{
    if i >= 34 {
        None
    } else if all_chord_types()[i as int].has_symbol(s) {
        Some(all_chord_types()[i as int])
    } else {
        spelled_type_from(s, i + 1)
    }
}

proof fn lemma_spelled_type_from(s: Seq<char>, i: nat)
    ensures
        spelled_type_from(s, i) == chord_type_of_symbol_from(s, i),
    decreases 34 - i,
{
    if i < 34 {
        lemma_has_symbol(all_chord_types()[i as int], s);
        lemma_spelled_type_from(s, i + 1);
    }
}

/// Each symbol of a chord type is spelled by that type and by no type before it.
#[verifier::rlimit(100)]
#[verifier::spinoff_prover]
proof fn lemma_symbol_spelled(ct: ChordType, j: int)
    requires
        0 <= j < ct.symbol_seq().len(),
    ensures
        spelled_type_from(ct.symbol_seq()[j], 0) == Some(ct),
{
    reveal_with_fuel(spelled_type_from, 35);
    match ct {
        ChordType::Major => {
            if j == 0 {
                assert(ct.symbol_seq()[0] == Seq::<char>::empty());
                assert(spelled_type_from(Seq::<char>::empty(), 0) == Some(ChordType::Major));
            }
            if j == 1 {
                assert(ct.symbol_seq()[1] == seq!['m', 'a', 'j']);
                assert(spelled_type_from(seq!['m', 'a', 'j'], 0) == Some(ChordType::Major));
            }
            if j == 2 {
                assert(ct.symbol_seq()[2] == seq!['M']);
                assert(spelled_type_from(seq!['M'], 0) == Some(ChordType::Major));
            }
        },
        ChordType::MajorSeventh => {
            if j == 0 {
                assert(ct.symbol_seq()[0] == seq!['m', 'a', 'j', '7']);
                assert(spelled_type_from(seq!['m', 'a', 'j', '7'], 0) == Some(ChordType::MajorSeventh));
            }
            if j == 1 {
                assert(ct.symbol_seq()[1] == seq!['M', '7']);
                assert(spelled_type_from(seq!['M', '7'], 0) == Some(ChordType::MajorSeventh));
            }
        },
        ChordType::MajorNinth => {
            if j == 0 {
                assert(ct.symbol_seq()[0] == seq!['m', 'a', 'j', '9']);
                assert(spelled_type_from(seq!['m', 'a', 'j', '9'], 0) == Some(ChordType::MajorNinth));
            }
            if j == 1 {
                assert(ct.symbol_seq()[1] == seq!['M', '9']);
                assert(spelled_type_from(seq!['M', '9'], 0) == Some(ChordType::MajorNinth));
            }
        },
        ChordType::MajorEleventh => {
            if j == 0 {
                assert(ct.symbol_seq()[0] == seq!['m', 'a', 'j', '1', '1']);
                assert(spelled_type_from(seq!['m', 'a', 'j', '1', '1'], 0) == Some(ChordType::MajorEleventh));
            }
            if j == 1 {
                assert(ct.symbol_seq()[1] == seq!['M', '1', '1']);
                assert(spelled_type_from(seq!['M', '1', '1'], 0) == Some(ChordType::MajorEleventh));
            }
        },
        ChordType::MajorThirteenth => {
            if j == 0 {
                assert(ct.symbol_seq()[0] == seq!['m', 'a', 'j', '1', '3']);
                assert(spelled_type_from(seq!['m', 'a', 'j', '1', '3'], 0) == Some(ChordType::MajorThirteenth));
            }
            if j == 1 {
                assert(ct.symbol_seq()[1] == seq!['M', '1', '3']);
                assert(spelled_type_from(seq!['M', '1', '3'], 0) == Some(ChordType::MajorThirteenth));
            }
        },
        ChordType::MajorSixth => {
            if j == 0 {
                assert(ct.symbol_seq()[0] == seq!['6']);
                assert(spelled_type_from(seq!['6'], 0) == Some(ChordType::MajorSixth));
            }
            if j == 1 {
                assert(ct.symbol_seq()[1] == seq!['m', 'a', 'j', '6']);
                assert(spelled_type_from(seq!['m', 'a', 'j', '6'], 0) == Some(ChordType::MajorSixth));
            }
            if j == 2 {
                assert(ct.symbol_seq()[2] == seq!['M', '6']);
                assert(spelled_type_from(seq!['M', '6'], 0) == Some(ChordType::MajorSixth));
            }
        },
        ChordType::SixthNinth => {
            if j == 0 {
                assert(ct.symbol_seq()[0] == seq!['6', '/', '9']);
                assert(spelled_type_from(seq!['6', '/', '9'], 0) == Some(ChordType::SixthNinth));
            }
            if j == 1 {
                assert(ct.symbol_seq()[1] == seq!['m', 'a', 'j', '6', '/', '9']);
                assert(spelled_type_from(seq!['m', 'a', 'j', '6', '/', '9'], 0) == Some(ChordType::SixthNinth));
            }
            if j == 2 {
                assert(ct.symbol_seq()[2] == seq!['M', '6', '/', '9']);
                assert(spelled_type_from(seq!['M', '6', '/', '9'], 0) == Some(ChordType::SixthNinth));
            }
        },
        ChordType::DominantSeventh => {
            if j == 0 {
                assert(ct.symbol_seq()[0] == seq!['7']);
                assert(spelled_type_from(seq!['7'], 0) == Some(ChordType::DominantSeventh));
            }
            if j == 1 {
                assert(ct.symbol_seq()[1] == seq!['d', 'o', 'm']);
                assert(spelled_type_from(seq!['d', 'o', 'm'], 0) == Some(ChordType::DominantSeventh));
            }
        },
        ChordType::DominantNinth => {
            if j == 0 {
                assert(ct.symbol_seq()[0] == seq!['9']);
                assert(spelled_type_from(seq!['9'], 0) == Some(ChordType::DominantNinth));
            }
        },
        ChordType::DominantEleventh => {
            if j == 0 {
                assert(ct.symbol_seq()[0] == seq!['1', '1']);
                assert(spelled_type_from(seq!['1', '1'], 0) == Some(ChordType::DominantEleventh));
            }
        },
        ChordType::DominantThirteenth => {
            if j == 0 {
                assert(ct.symbol_seq()[0] == seq!['1', '3']);
                assert(spelled_type_from(seq!['1', '3'], 0) == Some(ChordType::DominantThirteenth));
            }
        },
        ChordType::DominantSeventhFlatNinth => {
            if j == 0 {
                assert(ct.symbol_seq()[0] == seq!['7', 'b', '9']);
                assert(spelled_type_from(seq!['7', 'b', '9'], 0) == Some(ChordType::DominantSeventhFlatNinth));
            }
        },
        ChordType::DominantSeventhSharpNinth => {
            if j == 0 {
                assert(ct.symbol_seq()[0] == seq!['7', '#', '9']);
                assert(spelled_type_from(seq!['7', '#', '9'], 0) == Some(ChordType::DominantSeventhSharpNinth));
            }
        },
        ChordType::DominantSeventhFlatFifth => {
            if j == 0 {
                assert(ct.symbol_seq()[0] == seq!['7', 'b', '5']);
                assert(spelled_type_from(seq!['7', 'b', '5'], 0) == Some(ChordType::DominantSeventhFlatFifth));
            }
            if j == 1 {
                assert(ct.symbol_seq()[1] == seq!['7', 'd', 'i', 'm', '5']);
                assert(spelled_type_from(seq!['7', 'd', 'i', 'm', '5'], 0) == Some(ChordType::DominantSeventhFlatFifth));
            }
        },
        ChordType::SuspendedFourth => {
            if j == 0 {
                assert(ct.symbol_seq()[0] == seq!['s', 'u', 's', '4']);
                assert(spelled_type_from(seq!['s', 'u', 's', '4'], 0) == Some(ChordType::SuspendedFourth));
            }
            if j == 1 {
                assert(ct.symbol_seq()[1] == seq!['s', 'u', 's']);
                assert(spelled_type_from(seq!['s', 'u', 's'], 0) == Some(ChordType::SuspendedFourth));
            }
        },
        ChordType::SuspendedSecond => {
            if j == 0 {
                assert(ct.symbol_seq()[0] == seq!['s', 'u', 's', '2']);
                assert(spelled_type_from(seq!['s', 'u', 's', '2'], 0) == Some(ChordType::SuspendedSecond));
            }
        },
        ChordType::DominantSeventhSuspendedFourth => {
            if j == 0 {
                assert(ct.symbol_seq()[0] == seq!['7', 's', 'u', 's', '4']);
                assert(spelled_type_from(seq!['7', 's', 'u', 's', '4'], 0) == Some(ChordType::DominantSeventhSuspendedFourth));
            }
            if j == 1 {
                assert(ct.symbol_seq()[1] == seq!['7', 's', 'u', 's']);
                assert(spelled_type_from(seq!['7', 's', 'u', 's'], 0) == Some(ChordType::DominantSeventhSuspendedFourth));
            }
        },
        ChordType::DominantSeventhSuspendedSecond => {
            if j == 0 {
                assert(ct.symbol_seq()[0] == seq!['7', 's', 'u', 's', '2']);
                assert(spelled_type_from(seq!['7', 's', 'u', 's', '2'], 0) == Some(ChordType::DominantSeventhSuspendedSecond));
            }
        },
        ChordType::Minor => {
            if j == 0 {
                assert(ct.symbol_seq()[0] == seq!['m']);
                assert(spelled_type_from(seq!['m'], 0) == Some(ChordType::Minor));
            }
            if j == 1 {
                assert(ct.symbol_seq()[1] == seq!['m', 'i', 'n']);
                assert(spelled_type_from(seq!['m', 'i', 'n'], 0) == Some(ChordType::Minor));
            }
        },
        ChordType::MinorSeventh => {
            if j == 0 {
                assert(ct.symbol_seq()[0] == seq!['m', '7']);
                assert(spelled_type_from(seq!['m', '7'], 0) == Some(ChordType::MinorSeventh));
            }
            if j == 1 {
                assert(ct.symbol_seq()[1] == seq!['m', 'i', 'n', '7']);
                assert(spelled_type_from(seq!['m', 'i', 'n', '7'], 0) == Some(ChordType::MinorSeventh));
            }
        },
        ChordType::MinorMajorSeventh => {
            if j == 0 {
                assert(ct.symbol_seq()[0] == seq!['m', 'M', 'a', 'j', '7']);
                assert(spelled_type_from(seq!['m', 'M', 'a', 'j', '7'], 0) == Some(ChordType::MinorMajorSeventh));
            }
            if j == 1 {
                assert(ct.symbol_seq()[1] == seq!['m', 'M', '7']);
                assert(spelled_type_from(seq!['m', 'M', '7'], 0) == Some(ChordType::MinorMajorSeventh));
            }
            if j == 2 {
                assert(ct.symbol_seq()[2] == seq!['m', 'i', 'n', 'M', 'a', 'j', '7']);
                assert(spelled_type_from(seq!['m', 'i', 'n', 'M', 'a', 'j', '7'], 0) == Some(ChordType::MinorMajorSeventh));
            }
        },
        ChordType::MinorSixth => {
            if j == 0 {
                assert(ct.symbol_seq()[0] == seq!['m', '6']);
                assert(spelled_type_from(seq!['m', '6'], 0) == Some(ChordType::MinorSixth));
            }
            if j == 1 {
                assert(ct.symbol_seq()[1] == seq!['m', 'i', 'n', '6']);
                assert(spelled_type_from(seq!['m', 'i', 'n', '6'], 0) == Some(ChordType::MinorSixth));
            }
        },
        ChordType::MinorNinth => {
            if j == 0 {
                assert(ct.symbol_seq()[0] == seq!['m', '9']);
                assert(spelled_type_from(seq!['m', '9'], 0) == Some(ChordType::MinorNinth));
            }
            if j == 1 {
                assert(ct.symbol_seq()[1] == seq!['m', 'i', 'n', '9']);
                assert(spelled_type_from(seq!['m', 'i', 'n', '9'], 0) == Some(ChordType::MinorNinth));
            }
        },
        ChordType::MinorEleventh => {
            if j == 0 {
                assert(ct.symbol_seq()[0] == seq!['m', '1', '1']);
                assert(spelled_type_from(seq!['m', '1', '1'], 0) == Some(ChordType::MinorEleventh));
            }
            if j == 1 {
                assert(ct.symbol_seq()[1] == seq!['m', 'i', 'n', '1', '1']);
                assert(spelled_type_from(seq!['m', 'i', 'n', '1', '1'], 0) == Some(ChordType::MinorEleventh));
            }
        },
        ChordType::MinorThirteenth => {
            if j == 0 {
                assert(ct.symbol_seq()[0] == seq!['m', '1', '3']);
                assert(spelled_type_from(seq!['m', '1', '3'], 0) == Some(ChordType::MinorThirteenth));
            }
            if j == 1 {
                assert(ct.symbol_seq()[1] == seq!['m', 'i', 'n', '1', '3']);
                assert(spelled_type_from(seq!['m', 'i', 'n', '1', '3'], 0) == Some(ChordType::MinorThirteenth));
            }
        },
        ChordType::Diminished => {
            if j == 0 {
                assert(ct.symbol_seq()[0] == seq!['d', 'i', 'm']);
                assert(spelled_type_from(seq!['d', 'i', 'm'], 0) == Some(ChordType::Diminished));
            }
            if j == 1 {
                assert(ct.symbol_seq()[1] == seq!['o']);
                assert(spelled_type_from(seq!['o'], 0) == Some(ChordType::Diminished));
            }
        },
        ChordType::DiminishedSeventh => {
            if j == 0 {
                assert(ct.symbol_seq()[0] == seq!['d', 'i', 'm', '7']);
                assert(spelled_type_from(seq!['d', 'i', 'm', '7'], 0) == Some(ChordType::DiminishedSeventh));
            }
            if j == 1 {
                assert(ct.symbol_seq()[1] == seq!['o', '7']);
                assert(spelled_type_from(seq!['o', '7'], 0) == Some(ChordType::DiminishedSeventh));
            }
        },
        ChordType::HalfDiminishedSeventh => {
            if j == 0 {
                assert(ct.symbol_seq()[0] == seq!['m', '7', 'b', '5']);
                assert(spelled_type_from(seq!['m', '7', 'b', '5'], 0) == Some(ChordType::HalfDiminishedSeventh));
            }
            if j == 1 {
                assert(ct.symbol_seq()[1] == seq!['ø']);
                assert(spelled_type_from(seq!['ø'], 0) == Some(ChordType::HalfDiminishedSeventh));
            }
            if j == 2 {
                assert(ct.symbol_seq()[2] == seq!['ø', '7']);
                assert(spelled_type_from(seq!['ø', '7'], 0) == Some(ChordType::HalfDiminishedSeventh));
            }
        },
        ChordType::Fifth => {
            if j == 0 {
                assert(ct.symbol_seq()[0] == seq!['5']);
                assert(spelled_type_from(seq!['5'], 0) == Some(ChordType::Fifth));
            }
        },
        ChordType::Augmented => {
            if j == 0 {
                assert(ct.symbol_seq()[0] == seq!['a', 'u', 'g']);
                assert(spelled_type_from(seq!['a', 'u', 'g'], 0) == Some(ChordType::Augmented));
            }
            if j == 1 {
                assert(ct.symbol_seq()[1] == seq!['+']);
                assert(spelled_type_from(seq!['+'], 0) == Some(ChordType::Augmented));
            }
        },
        ChordType::AugmentedSeventh => {
            if j == 0 {
                assert(ct.symbol_seq()[0] == seq!['a', 'u', 'g', '7']);
                assert(spelled_type_from(seq!['a', 'u', 'g', '7'], 0) == Some(ChordType::AugmentedSeventh));
            }
            if j == 1 {
                assert(ct.symbol_seq()[1] == seq!['+', '7']);
                assert(spelled_type_from(seq!['+', '7'], 0) == Some(ChordType::AugmentedSeventh));
            }
            if j == 2 {
                assert(ct.symbol_seq()[2] == seq!['7', '#', '5']);
                assert(spelled_type_from(seq!['7', '#', '5'], 0) == Some(ChordType::AugmentedSeventh));
            }
        },
        ChordType::AugmentedMajorSeventh => {
            if j == 0 {
                assert(ct.symbol_seq()[0] == seq!['a', 'u', 'g', 'M', 'a', 'j', '7']);
                assert(spelled_type_from(seq!['a', 'u', 'g', 'M', 'a', 'j', '7'], 0) == Some(ChordType::AugmentedMajorSeventh));
            }
            if j == 1 {
                assert(ct.symbol_seq()[1] == seq!['+', 'M', '7']);
                assert(spelled_type_from(seq!['+', 'M', '7'], 0) == Some(ChordType::AugmentedMajorSeventh));
            }
        },
        ChordType::AddedNinth => {
            if j == 0 {
                assert(ct.symbol_seq()[0] == seq!['a', 'd', 'd', '9']);
                assert(spelled_type_from(seq!['a', 'd', 'd', '9'], 0) == Some(ChordType::AddedNinth));
            }
            if j == 1 {
                assert(ct.symbol_seq()[1] == seq!['a', 'd', 'd', '2']);
                assert(spelled_type_from(seq!['a', 'd', 'd', '2'], 0) == Some(ChordType::AddedNinth));
            }
        },
        ChordType::AddedFourth => {
            if j == 0 {
                assert(ct.symbol_seq()[0] == seq!['a', 'd', 'd', '4']);
                assert(spelled_type_from(seq!['a', 'd', 'd', '4'], 0) == Some(ChordType::AddedFourth));
            }
        },
    }
}

/// No two chord types share a symbol: every symbol of a chord type is read
/// back as that chord type.
pub proof fn law_symbol_names_type(ct: ChordType, j: int)
    requires
        0 <= j < ct.symbol_seq().len(),
    ensures
        chord_type_of_symbol(ct.symbol_seq()[j]) == Some(ct),
{
    lemma_symbol_spelled(ct, j);
    lemma_spelled_type_from(ct.symbol_seq()[j], 0);
}

/// The chord type that a name belongs to, read off its length and a few of
/// its characters.
spec fn type_of_name(s: Seq<char>) -> Option<ChordType> {
    if s.len() == 3 {
        Some(ChordType::Fifth)
    } else if s.len() == 5 && s[1] == 'a' {
        Some(ChordType::Major)
    } else if s.len() == 5 && s[1] == 'i' {
        Some(ChordType::Minor)
    } else if s.len() == 7 {
        Some(ChordType::SixthNinth)
    } else if s.len() == 9 && s[1] == 'a' && s[6] == '7' {
        Some(ChordType::MajorSeventh)
    } else if s.len() == 9 && s[1] == 'a' && s[6] == '9' {
        Some(ChordType::MajorNinth)
    } else if s.len() == 9 && s[1] == 'a' && s[6] == '6' {
        Some(ChordType::MajorSixth)
    } else if s.len() == 9 && s[1] == 'i' && s[6] == '7' {
        Some(ChordType::MinorSeventh)
    } else if s.len() == 9 && s[1] == 'i' && s[6] == '6' {
        Some(ChordType::MinorSixth)
    } else if s.len() == 9 && s[1] == 'i' && s[6] == '9' {
        Some(ChordType::MinorNinth)
    } else if s.len() == 9 && s[1] == 'u' && s[6] == 't' {
        Some(ChordType::Augmented)
    } else if s.len() == 9 && s[1] == 'd' && s[6] == '9' {
        Some(ChordType::AddedNinth)
    } else if s.len() == 9 && s[1] == 'd' && s[6] == '4' {
        Some(ChordType::AddedFourth)
    } else if s.len() == 10 && s[1] == 'a' && s[7] == '1' {
        Some(ChordType::MajorEleventh)
    } else if s.len() == 10 && s[1] == 'a' && s[7] == '3' {
        Some(ChordType::MajorThirteenth)
    } else if s.len() == 10 && s[1] == 'i' && s[7] == '1' {
        Some(ChordType::MinorEleventh)
    } else if s.len() == 10 && s[1] == 'i' && s[7] == '3' {
        Some(ChordType::MinorThirteenth)
    } else if s.len() == 10 && s[1] == 'i' && s[7] == 'h' {
        Some(ChordType::Diminished)
    } else if s.len() == 12 && s[9] == '7' {
        Some(ChordType::DominantSeventh)
    } else if s.len() == 12 && s[9] == '9' {
        Some(ChordType::DominantNinth)
    } else if s.len() == 13 && s[10] == '1' {
        Some(ChordType::DominantEleventh)
    } else if s.len() == 13 && s[10] == '3' {
        Some(ChordType::DominantThirteenth)
    } else if s.len() == 13 && s[10] == '4' {
        Some(ChordType::SuspendedFourth)
    } else if s.len() == 13 && s[10] == '2' {
        Some(ChordType::SuspendedSecond)
    } else if s.len() == 13 && s[10] == '7' {
        Some(ChordType::AugmentedSeventh)
    } else if s.len() == 14 {
        Some(ChordType::DiminishedSeventh)
    } else if s.len() == 15 {
        Some(ChordType::MinorMajorSeventh)
    } else if s.len() == 19 && s[0] == 'h' {
        Some(ChordType::HalfDiminishedSeventh)
    } else if s.len() == 19 && s[0] == 'a' {
        Some(ChordType::AugmentedMajorSeventh)
    } else if s.len() == 21 && s[18] == '9' {
        Some(ChordType::DominantSeventhFlatNinth)
    } else if s.len() == 21 && s[18] == '5' {
        Some(ChordType::DominantSeventhFlatFifth)
    } else if s.len() == 22 {
        Some(ChordType::DominantSeventhSharpNinth)
    } else if s.len() == 26 && s[23] == '4' {
        Some(ChordType::DominantSeventhSuspendedFourth)
    } else if s.len() == 26 && s[23] == '2' {
        Some(ChordType::DominantSeventhSuspendedSecond)
    } else {
        None
    }
}

/// A chord type's name is read back as that chord type.
#[verifier::rlimit(50)]
#[verifier::spinoff_prover]
proof fn lemma_type_of_name(ct: ChordType)
    ensures
        type_of_name(ct.name()) == Some(ct),
{
    match ct {
        ChordType::Major => {
            reveal_strlit("major");
        },
        ChordType::MajorSeventh => {
            reveal_strlit("major 7th");
        },
        ChordType::MajorNinth => {
            reveal_strlit("major 9th");
        },
        ChordType::MajorEleventh => {
            reveal_strlit("major 11th");
        },
        ChordType::MajorThirteenth => {
            reveal_strlit("major 13th");
        },
        ChordType::MajorSixth => {
            reveal_strlit("major 6th");
        },
        ChordType::SixthNinth => {
            reveal_strlit("6th/9th");
        },
        ChordType::DominantSeventh => {
            reveal_strlit("dominant 7th");
        },
        ChordType::DominantNinth => {
            reveal_strlit("dominant 9th");
        },
        ChordType::DominantEleventh => {
            reveal_strlit("dominant 11th");
        },
        ChordType::DominantThirteenth => {
            reveal_strlit("dominant 13th");
        },
        ChordType::DominantSeventhFlatNinth => {
            reveal_strlit("dominant 7th flat 9th");
        },
        ChordType::DominantSeventhSharpNinth => {
            reveal_strlit("dominant 7th sharp 9th");
        },
        ChordType::DominantSeventhFlatFifth => {
            reveal_strlit("dominant 7th flat 5th");
        },
        ChordType::SuspendedFourth => {
            reveal_strlit("suspended 4th");
        },
        ChordType::SuspendedSecond => {
            reveal_strlit("suspended 2nd");
        },
        ChordType::DominantSeventhSuspendedFourth => {
            reveal_strlit("dominant 7th suspended 4th");
        },
        ChordType::DominantSeventhSuspendedSecond => {
            reveal_strlit("dominant 7th suspended 2nd");
        },
        ChordType::Minor => {
            reveal_strlit("minor");
        },
        ChordType::MinorSeventh => {
            reveal_strlit("minor 7th");
        },
        ChordType::MinorMajorSeventh => {
            reveal_strlit("minor/major 7th");
        },
        ChordType::MinorSixth => {
            reveal_strlit("minor 6th");
        },
        ChordType::MinorNinth => {
            reveal_strlit("minor 9th");
        },
        ChordType::MinorEleventh => {
            reveal_strlit("minor 11th");
        },
        ChordType::MinorThirteenth => {
            reveal_strlit("minor 13th");
        },
        ChordType::Diminished => {
            reveal_strlit("diminished");
        },
        ChordType::DiminishedSeventh => {
            reveal_strlit("diminished 7th");
        },
        ChordType::HalfDiminishedSeventh => {
            reveal_strlit("half-diminished 7th");
        },
        ChordType::Fifth => {
            reveal_strlit("5th");
        },
        ChordType::Augmented => {
            reveal_strlit("augmented");
        },
        ChordType::AugmentedSeventh => {
            reveal_strlit("augmented 7th");
        },
        ChordType::AugmentedMajorSeventh => {
            reveal_strlit("augmented major 7th");
        },
        ChordType::AddedNinth => {
            reveal_strlit("added 9th");
        },
        ChordType::AddedFourth => {
            reveal_strlit("added 4th");
        },
    }
}

/// Different chord types have different names.
pub proof fn law_names_distinct(ct1: ChordType, ct2: ChordType)
    requires
        ct1 != ct2,
    ensures
        ct1.name() != ct2.name(),
{
    lemma_type_of_name(ct1);
    lemma_type_of_name(ct2);
}

/// Two different chord types share no symbol.
pub proof fn law_symbols_disjoint(ct1: ChordType, ct2: ChordType, i: int, j: int)
    requires
        ct1 != ct2,
        0 <= i < ct1.symbol_seq().len(),
        0 <= j < ct2.symbol_seq().len(),
    ensures
        ct1.symbol_seq()[i] != ct2.symbol_seq()[j],
{
    law_symbol_names_type(ct1, i);
    law_symbol_names_type(ct2, j);
}

/// Every chord type has a symbol, no symbol of a chord type occurs twice in
/// its list, and no symbol begins with `#` or `b`, so that a chord name splits
/// into its root note and its symbol in one way only.
#[verifier::rlimit(100)]
#[verifier::spinoff_prover]
pub proof fn law_symbols_distinct(ct: ChordType)
    ensures
        ct.symbol_seq().len() >= 1,
        forall|i: int, j: int|
            0 <= i < j < ct.symbol_seq().len() ==> #[trigger] ct.symbol_seq()[i] != #[trigger] ct.symbol_seq()[j],
        forall|i: int|
            0 <= i < ct.symbol_seq().len() && (#[trigger] ct.symbol_seq()[i]).len() > 0 ==> ct.symbol_seq()[i][0]
                != '#' && ct.symbol_seq()[i][0] != 'b',
{
    let s = ct.symbol_seq();
    match ct {
        ChordType::Major => {
            assert(s[0] == Seq::<char>::empty());
            assert(s[1] == seq!['m', 'a', 'j']);
            assert(s[2] == seq!['M']);
            assert forall|i: int, j: int| 0 <= i < j < s.len() implies s[i] != s[j] by {
                if i == 0 && j == 1 {
                    assert(s[0].len() != s[1].len());
                } else if i == 0 && j == 2 {
                    assert(s[0].len() != s[2].len());
                } else if i == 1 && j == 2 {
                    assert(s[1].len() != s[2].len());
                }
            }
            assert forall|i: int| 0 <= i < s.len() && s[i].len() > 0 implies s[i][0] != '#' && s[i][0] != 'b' by {
                if i == 1 {
                    assert(s[1][0] == 'm');
                } else if i == 2 {
                    assert(s[2][0] == 'M');
                }
            }
        },
        ChordType::MajorSeventh => {
            assert(s[0] == seq!['m', 'a', 'j', '7']);
            assert(s[1] == seq!['M', '7']);
            assert forall|i: int, j: int| 0 <= i < j < s.len() implies s[i] != s[j] by {
                if i == 0 && j == 1 {
                    assert(s[0].len() != s[1].len());
                }
            }
            assert forall|i: int| 0 <= i < s.len() && s[i].len() > 0 implies s[i][0] != '#' && s[i][0] != 'b' by {
                if i == 0 {
                    assert(s[0][0] == 'm');
                } else if i == 1 {
                    assert(s[1][0] == 'M');
                }
            }
        },
        ChordType::MajorNinth => {
            assert(s[0] == seq!['m', 'a', 'j', '9']);
            assert(s[1] == seq!['M', '9']);
            assert forall|i: int, j: int| 0 <= i < j < s.len() implies s[i] != s[j] by {
                if i == 0 && j == 1 {
                    assert(s[0].len() != s[1].len());
                }
            }
            assert forall|i: int| 0 <= i < s.len() && s[i].len() > 0 implies s[i][0] != '#' && s[i][0] != 'b' by {
                if i == 0 {
                    assert(s[0][0] == 'm');
                } else if i == 1 {
                    assert(s[1][0] == 'M');
                }
            }
        },
        ChordType::MajorEleventh => {
            assert(s[0] == seq!['m', 'a', 'j', '1', '1']);
            assert(s[1] == seq!['M', '1', '1']);
            assert forall|i: int, j: int| 0 <= i < j < s.len() implies s[i] != s[j] by {
                if i == 0 && j == 1 {
                    assert(s[0].len() != s[1].len());
                }
            }
            assert forall|i: int| 0 <= i < s.len() && s[i].len() > 0 implies s[i][0] != '#' && s[i][0] != 'b' by {
                if i == 0 {
                    assert(s[0][0] == 'm');
                } else if i == 1 {
                    assert(s[1][0] == 'M');
                }
            }
        },
        ChordType::MajorThirteenth => {
            assert(s[0] == seq!['m', 'a', 'j', '1', '3']);
            assert(s[1] == seq!['M', '1', '3']);
            assert forall|i: int, j: int| 0 <= i < j < s.len() implies s[i] != s[j] by {
                if i == 0 && j == 1 {
                    assert(s[0].len() != s[1].len());
                }
            }
            assert forall|i: int| 0 <= i < s.len() && s[i].len() > 0 implies s[i][0] != '#' && s[i][0] != 'b' by {
                if i == 0 {
                    assert(s[0][0] == 'm');
                } else if i == 1 {
                    assert(s[1][0] == 'M');
                }
            }
        },
        ChordType::MajorSixth => {
            assert(s[0] == seq!['6']);
            assert(s[1] == seq!['m', 'a', 'j', '6']);
            assert(s[2] == seq!['M', '6']);
            assert forall|i: int, j: int| 0 <= i < j < s.len() implies s[i] != s[j] by {
                if i == 0 && j == 1 {
                    assert(s[0].len() != s[1].len());
                } else if i == 0 && j == 2 {
                    assert(s[0].len() != s[2].len());
                } else if i == 1 && j == 2 {
                    assert(s[1].len() != s[2].len());
                }
            }
            assert forall|i: int| 0 <= i < s.len() && s[i].len() > 0 implies s[i][0] != '#' && s[i][0] != 'b' by {
                if i == 0 {
                    assert(s[0][0] == '6');
                } else if i == 1 {
                    assert(s[1][0] == 'm');
                } else if i == 2 {
                    assert(s[2][0] == 'M');
                }
            }
        },
        ChordType::SixthNinth => {
            assert(s[0] == seq!['6', '/', '9']);
            assert(s[1] == seq!['m', 'a', 'j', '6', '/', '9']);
            assert(s[2] == seq!['M', '6', '/', '9']);
            assert forall|i: int, j: int| 0 <= i < j < s.len() implies s[i] != s[j] by {
                if i == 0 && j == 1 {
                    assert(s[0].len() != s[1].len());
                } else if i == 0 && j == 2 {
                    assert(s[0].len() != s[2].len());
                } else if i == 1 && j == 2 {
                    assert(s[1].len() != s[2].len());
                }
            }
            assert forall|i: int| 0 <= i < s.len() && s[i].len() > 0 implies s[i][0] != '#' && s[i][0] != 'b' by {
                if i == 0 {
                    assert(s[0][0] == '6');
                } else if i == 1 {
                    assert(s[1][0] == 'm');
                } else if i == 2 {
                    assert(s[2][0] == 'M');
                }
            }
        },
        ChordType::DominantSeventh => {
            assert(s[0] == seq!['7']);
            assert(s[1] == seq!['d', 'o', 'm']);
            assert forall|i: int, j: int| 0 <= i < j < s.len() implies s[i] != s[j] by {
                if i == 0 && j == 1 {
                    assert(s[0].len() != s[1].len());
                }
            }
            assert forall|i: int| 0 <= i < s.len() && s[i].len() > 0 implies s[i][0] != '#' && s[i][0] != 'b' by {
                if i == 0 {
                    assert(s[0][0] == '7');
                } else if i == 1 {
                    assert(s[1][0] == 'd');
                }
            }
        },
        ChordType::DominantNinth => {
            assert(s[0] == seq!['9']);
            assert forall|i: int| 0 <= i < s.len() && s[i].len() > 0 implies s[i][0] != '#' && s[i][0] != 'b' by {
                if i == 0 {
                    assert(s[0][0] == '9');
                }
            }
        },
        ChordType::DominantEleventh => {
            assert(s[0] == seq!['1', '1']);
            assert forall|i: int| 0 <= i < s.len() && s[i].len() > 0 implies s[i][0] != '#' && s[i][0] != 'b' by {
                if i == 0 {
                    assert(s[0][0] == '1');
                }
            }
        },
        ChordType::DominantThirteenth => {
            assert(s[0] == seq!['1', '3']);
            assert forall|i: int| 0 <= i < s.len() && s[i].len() > 0 implies s[i][0] != '#' && s[i][0] != 'b' by {
                if i == 0 {
                    assert(s[0][0] == '1');
                }
            }
        },
        ChordType::DominantSeventhFlatNinth => {
            assert(s[0] == seq!['7', 'b', '9']);
            assert forall|i: int| 0 <= i < s.len() && s[i].len() > 0 implies s[i][0] != '#' && s[i][0] != 'b' by {
                if i == 0 {
                    assert(s[0][0] == '7');
                }
            }
        },
        ChordType::DominantSeventhSharpNinth => {
            assert(s[0] == seq!['7', '#', '9']);
            assert forall|i: int| 0 <= i < s.len() && s[i].len() > 0 implies s[i][0] != '#' && s[i][0] != 'b' by {
                if i == 0 {
                    assert(s[0][0] == '7');
                }
            }
        },
        ChordType::DominantSeventhFlatFifth => {
            assert(s[0] == seq!['7', 'b', '5']);
            assert(s[1] == seq!['7', 'd', 'i', 'm', '5']);
            assert forall|i: int, j: int| 0 <= i < j < s.len() implies s[i] != s[j] by {
                if i == 0 && j == 1 {
                    assert(s[0].len() != s[1].len());
                }
            }
            assert forall|i: int| 0 <= i < s.len() && s[i].len() > 0 implies s[i][0] != '#' && s[i][0] != 'b' by {
                if i == 0 {
                    assert(s[0][0] == '7');
                } else if i == 1 {
                    assert(s[1][0] == '7');
                }
            }
        },
        ChordType::SuspendedFourth => {
            assert(s[0] == seq!['s', 'u', 's', '4']);
            assert(s[1] == seq!['s', 'u', 's']);
            assert forall|i: int, j: int| 0 <= i < j < s.len() implies s[i] != s[j] by {
                if i == 0 && j == 1 {
                    assert(s[0].len() != s[1].len());
                }
            }
            assert forall|i: int| 0 <= i < s.len() && s[i].len() > 0 implies s[i][0] != '#' && s[i][0] != 'b' by {
                if i == 0 {
                    assert(s[0][0] == 's');
                } else if i == 1 {
                    assert(s[1][0] == 's');
                }
            }
        },
        ChordType::SuspendedSecond => {
            assert(s[0] == seq!['s', 'u', 's', '2']);
            assert forall|i: int| 0 <= i < s.len() && s[i].len() > 0 implies s[i][0] != '#' && s[i][0] != 'b' by {
                if i == 0 {
                    assert(s[0][0] == 's');
                }
            }
        },
        ChordType::DominantSeventhSuspendedFourth => {
            assert(s[0] == seq!['7', 's', 'u', 's', '4']);
            assert(s[1] == seq!['7', 's', 'u', 's']);
            assert forall|i: int, j: int| 0 <= i < j < s.len() implies s[i] != s[j] by {
                if i == 0 && j == 1 {
                    assert(s[0].len() != s[1].len());
                }
            }
            assert forall|i: int| 0 <= i < s.len() && s[i].len() > 0 implies s[i][0] != '#' && s[i][0] != 'b' by {
                if i == 0 {
                    assert(s[0][0] == '7');
                } else if i == 1 {
                    assert(s[1][0] == '7');
                }
            }
        },
        ChordType::DominantSeventhSuspendedSecond => {
            assert(s[0] == seq!['7', 's', 'u', 's', '2']);
            assert forall|i: int| 0 <= i < s.len() && s[i].len() > 0 implies s[i][0] != '#' && s[i][0] != 'b' by {
                if i == 0 {
                    assert(s[0][0] == '7');
                }
            }
        },
        ChordType::Minor => {
            assert(s[0] == seq!['m']);
            assert(s[1] == seq!['m', 'i', 'n']);
            assert forall|i: int, j: int| 0 <= i < j < s.len() implies s[i] != s[j] by {
                if i == 0 && j == 1 {
                    assert(s[0].len() != s[1].len());
                }
            }
            assert forall|i: int| 0 <= i < s.len() && s[i].len() > 0 implies s[i][0] != '#' && s[i][0] != 'b' by {
                if i == 0 {
                    assert(s[0][0] == 'm');
                } else if i == 1 {
                    assert(s[1][0] == 'm');
                }
            }
        },
        ChordType::MinorSeventh => {
            assert(s[0] == seq!['m', '7']);
            assert(s[1] == seq!['m', 'i', 'n', '7']);
            assert forall|i: int, j: int| 0 <= i < j < s.len() implies s[i] != s[j] by {
                if i == 0 && j == 1 {
                    assert(s[0].len() != s[1].len());
                }
            }
            assert forall|i: int| 0 <= i < s.len() && s[i].len() > 0 implies s[i][0] != '#' && s[i][0] != 'b' by {
                if i == 0 {
                    assert(s[0][0] == 'm');
                } else if i == 1 {
                    assert(s[1][0] == 'm');
                }
            }
        },
        ChordType::MinorMajorSeventh => {
            assert(s[0] == seq!['m', 'M', 'a', 'j', '7']);
            assert(s[1] == seq!['m', 'M', '7']);
            assert(s[2] == seq!['m', 'i', 'n', 'M', 'a', 'j', '7']);
            assert forall|i: int, j: int| 0 <= i < j < s.len() implies s[i] != s[j] by {
                if i == 0 && j == 1 {
                    assert(s[0].len() != s[1].len());
                } else if i == 0 && j == 2 {
                    assert(s[0].len() != s[2].len());
                } else if i == 1 && j == 2 {
                    assert(s[1].len() != s[2].len());
                }
            }
            assert forall|i: int| 0 <= i < s.len() && s[i].len() > 0 implies s[i][0] != '#' && s[i][0] != 'b' by {
                if i == 0 {
                    assert(s[0][0] == 'm');
                } else if i == 1 {
                    assert(s[1][0] == 'm');
                } else if i == 2 {
                    assert(s[2][0] == 'm');
                }
            }
        },
        ChordType::MinorSixth => {
            assert(s[0] == seq!['m', '6']);
            assert(s[1] == seq!['m', 'i', 'n', '6']);
            assert forall|i: int, j: int| 0 <= i < j < s.len() implies s[i] != s[j] by {
                if i == 0 && j == 1 {
                    assert(s[0].len() != s[1].len());
                }
            }
            assert forall|i: int| 0 <= i < s.len() && s[i].len() > 0 implies s[i][0] != '#' && s[i][0] != 'b' by {
                if i == 0 {
                    assert(s[0][0] == 'm');
                } else if i == 1 {
                    assert(s[1][0] == 'm');
                }
            }
        },
        ChordType::MinorNinth => {
            assert(s[0] == seq!['m', '9']);
            assert(s[1] == seq!['m', 'i', 'n', '9']);
            assert forall|i: int, j: int| 0 <= i < j < s.len() implies s[i] != s[j] by {
                if i == 0 && j == 1 {
                    assert(s[0].len() != s[1].len());
                }
            }
            assert forall|i: int| 0 <= i < s.len() && s[i].len() > 0 implies s[i][0] != '#' && s[i][0] != 'b' by {
                if i == 0 {
                    assert(s[0][0] == 'm');
                } else if i == 1 {
                    assert(s[1][0] == 'm');
                }
            }
        },
        ChordType::MinorEleventh => {
            assert(s[0] == seq!['m', '1', '1']);
            assert(s[1] == seq!['m', 'i', 'n', '1', '1']);
            assert forall|i: int, j: int| 0 <= i < j < s.len() implies s[i] != s[j] by {
                if i == 0 && j == 1 {
                    assert(s[0].len() != s[1].len());
                }
            }
            assert forall|i: int| 0 <= i < s.len() && s[i].len() > 0 implies s[i][0] != '#' && s[i][0] != 'b' by {
                if i == 0 {
                    assert(s[0][0] == 'm');
                } else if i == 1 {
                    assert(s[1][0] == 'm');
                }
            }
        },
        ChordType::MinorThirteenth => {
            assert(s[0] == seq!['m', '1', '3']);
            assert(s[1] == seq!['m', 'i', 'n', '1', '3']);
            assert forall|i: int, j: int| 0 <= i < j < s.len() implies s[i] != s[j] by {
                if i == 0 && j == 1 {
                    assert(s[0].len() != s[1].len());
                }
            }
            assert forall|i: int| 0 <= i < s.len() && s[i].len() > 0 implies s[i][0] != '#' && s[i][0] != 'b' by {
                if i == 0 {
                    assert(s[0][0] == 'm');
                } else if i == 1 {
                    assert(s[1][0] == 'm');
                }
            }
        },
        ChordType::Diminished => {
            assert(s[0] == seq!['d', 'i', 'm']);
            assert(s[1] == seq!['o']);
            assert forall|i: int, j: int| 0 <= i < j < s.len() implies s[i] != s[j] by {
                if i == 0 && j == 1 {
                    assert(s[0].len() != s[1].len());
                }
            }
            assert forall|i: int| 0 <= i < s.len() && s[i].len() > 0 implies s[i][0] != '#' && s[i][0] != 'b' by {
                if i == 0 {
                    assert(s[0][0] == 'd');
                } else if i == 1 {
                    assert(s[1][0] == 'o');
                }
            }
        },
        ChordType::DiminishedSeventh => {
            assert(s[0] == seq!['d', 'i', 'm', '7']);
            assert(s[1] == seq!['o', '7']);
            assert forall|i: int, j: int| 0 <= i < j < s.len() implies s[i] != s[j] by {
                if i == 0 && j == 1 {
                    assert(s[0].len() != s[1].len());
                }
            }
            assert forall|i: int| 0 <= i < s.len() && s[i].len() > 0 implies s[i][0] != '#' && s[i][0] != 'b' by {
                if i == 0 {
                    assert(s[0][0] == 'd');
                } else if i == 1 {
                    assert(s[1][0] == 'o');
                }
            }
        },
        ChordType::HalfDiminishedSeventh => {
            assert(s[0] == seq!['m', '7', 'b', '5']);
            assert(s[1] == seq!['ø']);
            assert(s[2] == seq!['ø', '7']);
            assert forall|i: int, j: int| 0 <= i < j < s.len() implies s[i] != s[j] by {
                if i == 0 && j == 1 {
                    assert(s[0].len() != s[1].len());
                } else if i == 0 && j == 2 {
                    assert(s[0].len() != s[2].len());
                } else if i == 1 && j == 2 {
                    assert(s[1].len() != s[2].len());
                }
            }
            assert forall|i: int| 0 <= i < s.len() && s[i].len() > 0 implies s[i][0] != '#' && s[i][0] != 'b' by {
                if i == 0 {
                    assert(s[0][0] == 'm');
                } else if i == 1 {
                    assert(s[1][0] == 'ø');
                } else if i == 2 {
                    assert(s[2][0] == 'ø');
                }
            }
        },
        ChordType::Fifth => {
            assert(s[0] == seq!['5']);
            assert forall|i: int| 0 <= i < s.len() && s[i].len() > 0 implies s[i][0] != '#' && s[i][0] != 'b' by {
                if i == 0 {
                    assert(s[0][0] == '5');
                }
            }
        },
        ChordType::Augmented => {
            assert(s[0] == seq!['a', 'u', 'g']);
            assert(s[1] == seq!['+']);
            assert forall|i: int, j: int| 0 <= i < j < s.len() implies s[i] != s[j] by {
                if i == 0 && j == 1 {
                    assert(s[0].len() != s[1].len());
                }
            }
            assert forall|i: int| 0 <= i < s.len() && s[i].len() > 0 implies s[i][0] != '#' && s[i][0] != 'b' by {
                if i == 0 {
                    assert(s[0][0] == 'a');
                } else if i == 1 {
                    assert(s[1][0] == '+');
                }
            }
        },
        ChordType::AugmentedSeventh => {
            assert(s[0] == seq!['a', 'u', 'g', '7']);
            assert(s[1] == seq!['+', '7']);
            assert(s[2] == seq!['7', '#', '5']);
            assert forall|i: int, j: int| 0 <= i < j < s.len() implies s[i] != s[j] by {
                if i == 0 && j == 1 {
                    assert(s[0].len() != s[1].len());
                } else if i == 0 && j == 2 {
                    assert(s[0].len() != s[2].len());
                } else if i == 1 && j == 2 {
                    assert(s[1].len() != s[2].len());
                }
            }
            assert forall|i: int| 0 <= i < s.len() && s[i].len() > 0 implies s[i][0] != '#' && s[i][0] != 'b' by {
                if i == 0 {
                    assert(s[0][0] == 'a');
                } else if i == 1 {
                    assert(s[1][0] == '+');
                } else if i == 2 {
                    assert(s[2][0] == '7');
                }
            }
        },
        ChordType::AugmentedMajorSeventh => {
            assert(s[0] == seq!['a', 'u', 'g', 'M', 'a', 'j', '7']);
            assert(s[1] == seq!['+', 'M', '7']);
            assert forall|i: int, j: int| 0 <= i < j < s.len() implies s[i] != s[j] by {
                if i == 0 && j == 1 {
                    assert(s[0].len() != s[1].len());
                }
            }
            assert forall|i: int| 0 <= i < s.len() && s[i].len() > 0 implies s[i][0] != '#' && s[i][0] != 'b' by {
                if i == 0 {
                    assert(s[0][0] == 'a');
                } else if i == 1 {
                    assert(s[1][0] == '+');
                }
            }
        },
        ChordType::AddedNinth => {
            assert(s[0] == seq!['a', 'd', 'd', '9']);
            assert(s[1] == seq!['a', 'd', 'd', '2']);
            assert forall|i: int, j: int| 0 <= i < j < s.len() implies s[i] != s[j] by {
                if i == 0 && j == 1 {
                    assert(s[0][3] != s[1][3]);
                }
            }
            assert forall|i: int| 0 <= i < s.len() && s[i].len() > 0 implies s[i][0] != '#' && s[i][0] != 'b' by {
                if i == 0 {
                    assert(s[0][0] == 'a');
                } else if i == 1 {
                    assert(s[1][0] == 'a');
                }
            }
        },
        ChordType::AddedFourth => {
            assert(s[0] == seq!['a', 'd', 'd', '4']);
            assert forall|i: int| 0 <= i < s.len() && s[i].len() > 0 implies s[i][0] != '#' && s[i][0] != 'b' by {
                if i == 0 {
                    assert(s[0][0] == 'a');
                }
            }
        },
    }
}


/// The symbol lists agree with their character-by-character spelling.
pub proof fn lemma_has_symbol(ct: ChordType, s: Seq<char>)
    ensures
        ct.symbol_seq().contains(s) == ct.has_symbol(s),
{
    match ct {
        ChordType::Major => {
            assert(ct.symbol_seq()[0] == Seq::<char>::empty());
            if (s.len() == 0) { assert(s =~= Seq::<char>::empty()); }
            assert(ct.symbol_seq()[1] == seq!['m', 'a', 'j']);
            if (s.len() == 3 && s[0] == 'm' && s[1] == 'a' && s[2] == 'j') { assert(s =~= seq!['m', 'a', 'j']); }
            assert(ct.symbol_seq()[2] == seq!['M']);
            if (s.len() == 1 && s[0] == 'M') { assert(s =~= seq!['M']); }
        },
        ChordType::MajorSeventh => {
            assert(ct.symbol_seq()[0] == seq!['m', 'a', 'j', '7']);
            if (s.len() == 4 && s[0] == 'm' && s[1] == 'a' && s[2] == 'j' && s[3] == '7') { assert(s =~= seq!['m', 'a', 'j', '7']); }
            assert(ct.symbol_seq()[1] == seq!['M', '7']);
            if (s.len() == 2 && s[0] == 'M' && s[1] == '7') { assert(s =~= seq!['M', '7']); }
        },
        ChordType::MajorNinth => {
            assert(ct.symbol_seq()[0] == seq!['m', 'a', 'j', '9']);
            if (s.len() == 4 && s[0] == 'm' && s[1] == 'a' && s[2] == 'j' && s[3] == '9') { assert(s =~= seq!['m', 'a', 'j', '9']); }
            assert(ct.symbol_seq()[1] == seq!['M', '9']);
            if (s.len() == 2 && s[0] == 'M' && s[1] == '9') { assert(s =~= seq!['M', '9']); }
        },
        ChordType::MajorEleventh => {
            assert(ct.symbol_seq()[0] == seq!['m', 'a', 'j', '1', '1']);
            if (s.len() == 5 && s[0] == 'm' && s[1] == 'a' && s[2] == 'j' && s[3] == '1' && s[4] == '1') { assert(s =~= seq!['m', 'a', 'j', '1', '1']); }
            assert(ct.symbol_seq()[1] == seq!['M', '1', '1']);
            if (s.len() == 3 && s[0] == 'M' && s[1] == '1' && s[2] == '1') { assert(s =~= seq!['M', '1', '1']); }
        },
        ChordType::MajorThirteenth => {
            assert(ct.symbol_seq()[0] == seq!['m', 'a', 'j', '1', '3']);
            if (s.len() == 5 && s[0] == 'm' && s[1] == 'a' && s[2] == 'j' && s[3] == '1' && s[4] == '3') { assert(s =~= seq!['m', 'a', 'j', '1', '3']); }
            assert(ct.symbol_seq()[1] == seq!['M', '1', '3']);
            if (s.len() == 3 && s[0] == 'M' && s[1] == '1' && s[2] == '3') { assert(s =~= seq!['M', '1', '3']); }
        },
        ChordType::MajorSixth => {
            assert(ct.symbol_seq()[0] == seq!['6']);
            if (s.len() == 1 && s[0] == '6') { assert(s =~= seq!['6']); }
            assert(ct.symbol_seq()[1] == seq!['m', 'a', 'j', '6']);
            if (s.len() == 4 && s[0] == 'm' && s[1] == 'a' && s[2] == 'j' && s[3] == '6') { assert(s =~= seq!['m', 'a', 'j', '6']); }
            assert(ct.symbol_seq()[2] == seq!['M', '6']);
            if (s.len() == 2 && s[0] == 'M' && s[1] == '6') { assert(s =~= seq!['M', '6']); }
        },
        ChordType::SixthNinth => {
            assert(ct.symbol_seq()[0] == seq!['6', '/', '9']);
            if (s.len() == 3 && s[0] == '6' && s[1] == '/' && s[2] == '9') { assert(s =~= seq!['6', '/', '9']); }
            assert(ct.symbol_seq()[1] == seq!['m', 'a', 'j', '6', '/', '9']);
            if (s.len() == 6 && s[0] == 'm' && s[1] == 'a' && s[2] == 'j' && s[3] == '6' && s[4] == '/' && s[5] == '9') { assert(s =~= seq!['m', 'a', 'j', '6', '/', '9']); }
            assert(ct.symbol_seq()[2] == seq!['M', '6', '/', '9']);
            if (s.len() == 4 && s[0] == 'M' && s[1] == '6' && s[2] == '/' && s[3] == '9') { assert(s =~= seq!['M', '6', '/', '9']); }
        },
        ChordType::DominantSeventh => {
            assert(ct.symbol_seq()[0] == seq!['7']);
            if (s.len() == 1 && s[0] == '7') { assert(s =~= seq!['7']); }
            assert(ct.symbol_seq()[1] == seq!['d', 'o', 'm']);
            if (s.len() == 3 && s[0] == 'd' && s[1] == 'o' && s[2] == 'm') { assert(s =~= seq!['d', 'o', 'm']); }
        },
        ChordType::DominantNinth => {
            assert(ct.symbol_seq()[0] == seq!['9']);
            if (s.len() == 1 && s[0] == '9') { assert(s =~= seq!['9']); }
        },
        ChordType::DominantEleventh => {
            assert(ct.symbol_seq()[0] == seq!['1', '1']);
            if (s.len() == 2 && s[0] == '1' && s[1] == '1') { assert(s =~= seq!['1', '1']); }
        },
        ChordType::DominantThirteenth => {
            assert(ct.symbol_seq()[0] == seq!['1', '3']);
            if (s.len() == 2 && s[0] == '1' && s[1] == '3') { assert(s =~= seq!['1', '3']); }
        },
        ChordType::DominantSeventhFlatNinth => {
            assert(ct.symbol_seq()[0] == seq!['7', 'b', '9']);
            if (s.len() == 3 && s[0] == '7' && s[1] == 'b' && s[2] == '9') { assert(s =~= seq!['7', 'b', '9']); }
        },
        ChordType::DominantSeventhSharpNinth => {
            assert(ct.symbol_seq()[0] == seq!['7', '#', '9']);
            if (s.len() == 3 && s[0] == '7' && s[1] == '#' && s[2] == '9') { assert(s =~= seq!['7', '#', '9']); }
        },
        ChordType::DominantSeventhFlatFifth => {
            assert(ct.symbol_seq()[0] == seq!['7', 'b', '5']);
            if (s.len() == 3 && s[0] == '7' && s[1] == 'b' && s[2] == '5') { assert(s =~= seq!['7', 'b', '5']); }
            assert(ct.symbol_seq()[1] == seq!['7', 'd', 'i', 'm', '5']);
            if (s.len() == 5 && s[0] == '7' && s[1] == 'd' && s[2] == 'i' && s[3] == 'm' && s[4] == '5') { assert(s =~= seq!['7', 'd', 'i', 'm', '5']); }
        },
        ChordType::SuspendedFourth => {
            assert(ct.symbol_seq()[0] == seq!['s', 'u', 's', '4']);
            if (s.len() == 4 && s[0] == 's' && s[1] == 'u' && s[2] == 's' && s[3] == '4') { assert(s =~= seq!['s', 'u', 's', '4']); }
            assert(ct.symbol_seq()[1] == seq!['s', 'u', 's']);
            if (s.len() == 3 && s[0] == 's' && s[1] == 'u' && s[2] == 's') { assert(s =~= seq!['s', 'u', 's']); }
        },
        ChordType::SuspendedSecond => {
            assert(ct.symbol_seq()[0] == seq!['s', 'u', 's', '2']);
            if (s.len() == 4 && s[0] == 's' && s[1] == 'u' && s[2] == 's' && s[3] == '2') { assert(s =~= seq!['s', 'u', 's', '2']); }
        },
        ChordType::DominantSeventhSuspendedFourth => {
            assert(ct.symbol_seq()[0] == seq!['7', 's', 'u', 's', '4']);
            if (s.len() == 5 && s[0] == '7' && s[1] == 's' && s[2] == 'u' && s[3] == 's' && s[4] == '4') { assert(s =~= seq!['7', 's', 'u', 's', '4']); }
            assert(ct.symbol_seq()[1] == seq!['7', 's', 'u', 's']);
            if (s.len() == 4 && s[0] == '7' && s[1] == 's' && s[2] == 'u' && s[3] == 's') { assert(s =~= seq!['7', 's', 'u', 's']); }
        },
        ChordType::DominantSeventhSuspendedSecond => {
            assert(ct.symbol_seq()[0] == seq!['7', 's', 'u', 's', '2']);
            if (s.len() == 5 && s[0] == '7' && s[1] == 's' && s[2] == 'u' && s[3] == 's' && s[4] == '2') { assert(s =~= seq!['7', 's', 'u', 's', '2']); }
        },
        ChordType::Minor => {
            assert(ct.symbol_seq()[0] == seq!['m']);
            if (s.len() == 1 && s[0] == 'm') { assert(s =~= seq!['m']); }
            assert(ct.symbol_seq()[1] == seq!['m', 'i', 'n']);
            if (s.len() == 3 && s[0] == 'm' && s[1] == 'i' && s[2] == 'n') { assert(s =~= seq!['m', 'i', 'n']); }
        },
        ChordType::MinorSeventh => {
            assert(ct.symbol_seq()[0] == seq!['m', '7']);
            if (s.len() == 2 && s[0] == 'm' && s[1] == '7') { assert(s =~= seq!['m', '7']); }
            assert(ct.symbol_seq()[1] == seq!['m', 'i', 'n', '7']);
            if (s.len() == 4 && s[0] == 'm' && s[1] == 'i' && s[2] == 'n' && s[3] == '7') { assert(s =~= seq!['m', 'i', 'n', '7']); }
        },
        ChordType::MinorMajorSeventh => {
            assert(ct.symbol_seq()[0] == seq!['m', 'M', 'a', 'j', '7']);
            if (s.len() == 5 && s[0] == 'm' && s[1] == 'M' && s[2] == 'a' && s[3] == 'j' && s[4] == '7') { assert(s =~= seq!['m', 'M', 'a', 'j', '7']); }
            assert(ct.symbol_seq()[1] == seq!['m', 'M', '7']);
            if (s.len() == 3 && s[0] == 'm' && s[1] == 'M' && s[2] == '7') { assert(s =~= seq!['m', 'M', '7']); }
            assert(ct.symbol_seq()[2] == seq!['m', 'i', 'n', 'M', 'a', 'j', '7']);
            if (s.len() == 7 && s[0] == 'm' && s[1] == 'i' && s[2] == 'n' && s[3] == 'M' && s[4] == 'a' && s[5] == 'j' && s[6] == '7') { assert(s =~= seq!['m', 'i', 'n', 'M', 'a', 'j', '7']); }
        },
        ChordType::MinorSixth => {
            assert(ct.symbol_seq()[0] == seq!['m', '6']);
            if (s.len() == 2 && s[0] == 'm' && s[1] == '6') { assert(s =~= seq!['m', '6']); }
            assert(ct.symbol_seq()[1] == seq!['m', 'i', 'n', '6']);
            if (s.len() == 4 && s[0] == 'm' && s[1] == 'i' && s[2] == 'n' && s[3] == '6') { assert(s =~= seq!['m', 'i', 'n', '6']); }
        },
        ChordType::MinorNinth => {
            assert(ct.symbol_seq()[0] == seq!['m', '9']);
            if (s.len() == 2 && s[0] == 'm' && s[1] == '9') { assert(s =~= seq!['m', '9']); }
            assert(ct.symbol_seq()[1] == seq!['m', 'i', 'n', '9']);
            if (s.len() == 4 && s[0] == 'm' && s[1] == 'i' && s[2] == 'n' && s[3] == '9') { assert(s =~= seq!['m', 'i', 'n', '9']); }
        },
        ChordType::MinorEleventh => {
            assert(ct.symbol_seq()[0] == seq!['m', '1', '1']);
            if (s.len() == 3 && s[0] == 'm' && s[1] == '1' && s[2] == '1') { assert(s =~= seq!['m', '1', '1']); }
            assert(ct.symbol_seq()[1] == seq!['m', 'i', 'n', '1', '1']);
            if (s.len() == 5 && s[0] == 'm' && s[1] == 'i' && s[2] == 'n' && s[3] == '1' && s[4] == '1') { assert(s =~= seq!['m', 'i', 'n', '1', '1']); }
        },
        ChordType::MinorThirteenth => {
            assert(ct.symbol_seq()[0] == seq!['m', '1', '3']);
            if (s.len() == 3 && s[0] == 'm' && s[1] == '1' && s[2] == '3') { assert(s =~= seq!['m', '1', '3']); }
            assert(ct.symbol_seq()[1] == seq!['m', 'i', 'n', '1', '3']);
            if (s.len() == 5 && s[0] == 'm' && s[1] == 'i' && s[2] == 'n' && s[3] == '1' && s[4] == '3') { assert(s =~= seq!['m', 'i', 'n', '1', '3']); }
        },
        ChordType::Diminished => {
            assert(ct.symbol_seq()[0] == seq!['d', 'i', 'm']);
            if (s.len() == 3 && s[0] == 'd' && s[1] == 'i' && s[2] == 'm') { assert(s =~= seq!['d', 'i', 'm']); }
            assert(ct.symbol_seq()[1] == seq!['o']);
            if (s.len() == 1 && s[0] == 'o') { assert(s =~= seq!['o']); }
        },
        ChordType::DiminishedSeventh => {
            assert(ct.symbol_seq()[0] == seq!['d', 'i', 'm', '7']);
            if (s.len() == 4 && s[0] == 'd' && s[1] == 'i' && s[2] == 'm' && s[3] == '7') { assert(s =~= seq!['d', 'i', 'm', '7']); }
            assert(ct.symbol_seq()[1] == seq!['o', '7']);
            if (s.len() == 2 && s[0] == 'o' && s[1] == '7') { assert(s =~= seq!['o', '7']); }
        },
        ChordType::HalfDiminishedSeventh => {
            assert(ct.symbol_seq()[0] == seq!['m', '7', 'b', '5']);
            if (s.len() == 4 && s[0] == 'm' && s[1] == '7' && s[2] == 'b' && s[3] == '5') { assert(s =~= seq!['m', '7', 'b', '5']); }
            assert(ct.symbol_seq()[1] == seq!['ø']);
            if (s.len() == 1 && s[0] == 'ø') { assert(s =~= seq!['ø']); }
            assert(ct.symbol_seq()[2] == seq!['ø', '7']);
            if (s.len() == 2 && s[0] == 'ø' && s[1] == '7') { assert(s =~= seq!['ø', '7']); }
        },
        ChordType::Fifth => {
            assert(ct.symbol_seq()[0] == seq!['5']);
            if (s.len() == 1 && s[0] == '5') { assert(s =~= seq!['5']); }
        },
        ChordType::Augmented => {
            assert(ct.symbol_seq()[0] == seq!['a', 'u', 'g']);
            if (s.len() == 3 && s[0] == 'a' && s[1] == 'u' && s[2] == 'g') { assert(s =~= seq!['a', 'u', 'g']); }
            assert(ct.symbol_seq()[1] == seq!['+']);
            if (s.len() == 1 && s[0] == '+') { assert(s =~= seq!['+']); }
        },
        ChordType::AugmentedSeventh => {
            assert(ct.symbol_seq()[0] == seq!['a', 'u', 'g', '7']);
            if (s.len() == 4 && s[0] == 'a' && s[1] == 'u' && s[2] == 'g' && s[3] == '7') { assert(s =~= seq!['a', 'u', 'g', '7']); }
            assert(ct.symbol_seq()[1] == seq!['+', '7']);
            if (s.len() == 2 && s[0] == '+' && s[1] == '7') { assert(s =~= seq!['+', '7']); }
            assert(ct.symbol_seq()[2] == seq!['7', '#', '5']);
            if (s.len() == 3 && s[0] == '7' && s[1] == '#' && s[2] == '5') { assert(s =~= seq!['7', '#', '5']); }
        },
        ChordType::AugmentedMajorSeventh => {
            assert(ct.symbol_seq()[0] == seq!['a', 'u', 'g', 'M', 'a', 'j', '7']);
            if (s.len() == 7 && s[0] == 'a' && s[1] == 'u' && s[2] == 'g' && s[3] == 'M' && s[4] == 'a' && s[5] == 'j' && s[6] == '7') { assert(s =~= seq!['a', 'u', 'g', 'M', 'a', 'j', '7']); }
            assert(ct.symbol_seq()[1] == seq!['+', 'M', '7']);
            if (s.len() == 3 && s[0] == '+' && s[1] == 'M' && s[2] == '7') { assert(s =~= seq!['+', 'M', '7']); }
        },
        ChordType::AddedNinth => {
            assert(ct.symbol_seq()[0] == seq!['a', 'd', 'd', '9']);
            if (s.len() == 4 && s[0] == 'a' && s[1] == 'd' && s[2] == 'd' && s[3] == '9') { assert(s =~= seq!['a', 'd', 'd', '9']); }
            assert(ct.symbol_seq()[1] == seq!['a', 'd', 'd', '2']);
            if (s.len() == 4 && s[0] == 'a' && s[1] == 'd' && s[2] == 'd' && s[3] == '2') { assert(s =~= seq!['a', 'd', 'd', '2']); }
        },
        ChordType::AddedFourth => {
            assert(ct.symbol_seq()[0] == seq!['a', 'd', 'd', '4']);
            if (s.len() == 4 && s[0] == 'a' && s[1] == 'd' && s[2] == 'd' && s[3] == '4') { assert(s =~= seq!['a', 'd', 'd', '4']); }
        },
    }
}

} // verus!

verus! {

/// The number of semitones of an interval, reduced by an octave if it spans one.
pub open spec fn reduced_semitones(i: Interval) -> nat {
    if i.semitones() >= 12 {
        (i.semitones() - 12) as nat
    } else {
        i.semitones()
    }
}

/// The distance in semitones of each pitch class from the first one (its root),
/// going upwards.
pub open spec fn pitch_diffs(p: Seq<PitchClass>) -> Seq<nat> {
    p.map_values(|q: PitchClass| ((q.value() - p[0].value()) % 12) as nat)
}

/// How many of the entries of `d` occur in `r` (counting repeated entries of `d`).
pub open spec fn count_members(d: Seq<nat>, r: Seq<nat>) -> nat
    decreases d.len(),
{
    if d.len() == 0 {
        0
    } else {
        count_members(d.drop_last(), r) + if r.contains(d.last()) {
            1nat
        } else {
            0nat
        }
    }
}

impl ChordType {
    /// The required intervals' semitones, reduced to one octave.
    pub open spec fn required_semitones(self) -> Seq<nat> {
        self.required_seq().map_values(|i: Interval| reduced_semitones(i))
    }

    /// The optional intervals' semitones, reduced to one octave.
    pub open spec fn optional_semitones(self) -> Seq<nat> {
        self.optional_seq().map_values(|i: Interval| reduced_semitones(i))
    }

    /// The distances `d` (in semitones from the root) fit the chord type: there are
    /// at least as many of them as the chord type has intervals (or strings,
    /// if that is fewer), all required intervals occur among them, and all
    /// the others belong to optional intervals.
    pub open spec fn fits(self, d: Seq<nat>) -> bool {
        let req = self.required_semitones();
        let opt = self.optional_semitones();
        let min_len = if self.interval_seq().len() < STRING_COUNT {
            self.interval_seq().len()
        } else {
            STRING_COUNT as nat
        };
        &&& d.len() >= min_len
        &&& count_members(d, req) == req.len()
        &&& forall|j: int| 0 <= j < d.len() && !req.contains(d[j]) ==> opt.contains(d[j])
    }
}

/// The first chord type, from the `i`-th one on, that the distances `d` fit.
pub open spec fn chord_type_fitting_from(d: Seq<nat>, i: nat) -> Option<ChordType>
    decreases 34 - i,
{
    if i >= 34 {
        None
    } else if all_chord_types()[i as int].fits(d) {
        Some(all_chord_types()[i as int])
    } else {
        chord_type_fitting_from(d, i + 1)
    }
}

/// The chord type represented by a list of pitch classes whose first entry is
/// the root: the first chord type (in the order of all chord types) that fits.
/// An empty list has no root and represents no chord type.
pub open spec fn chord_type_of_pitches(p: Seq<PitchClass>) -> Option<ChordType> {
    if p.len() == 0 {
        None
    } else {
        chord_type_fitting_from(pitch_diffs(p), 0)
    }
}

/// Whether `x` occurs in `v`.
fn contains_u8(v: &Vec<u8>, x: u8) -> (r: bool)
    ensures
        r == v@.contains(x),
{
    let mut i: usize = 0;
    while i < v.len()
        invariant
            i <= v.len(),
            forall|j: int| 0 <= j < i ==> v@[j] != x,
        decreases v.len() - i,
    {
        if v[i] == x {
            return true;
        }
        i = i + 1;
    }
    false
}

/// The semitones of the intervals, each reduced by an octave if it spans one.
fn reduce_all(v: &Vec<Interval>) -> (r: Vec<u8>)
    ensures
        r@.len() == v@.len(),
        forall|j: int| 0 <= j < v@.len() ==> r@[j] == reduced_semitones(#[trigger] v@[j]),
{
    let mut r: Vec<u8> = Vec::new();
    let mut i: usize = 0;
    while i < v.len()
        invariant
            i <= v.len(),
            r@.len() == i,
            forall|j: int| 0 <= j < i ==> r@[j] == reduced_semitones(#[trigger] v@[j]),
        decreases v.len() - i,
    {
        let s = v[i].to_semitones();
        let t = if s >= 12 {
            s - 12
        } else {
            s
        };
        r.push(t);
        i = i + 1;
    }
    r
}

/// A sequence of small numbers, as natural numbers.
pub open spec fn nats(v: Seq<u8>) -> Seq<nat> {
    v.map_values(|x: u8| x as nat)
}

proof fn lemma_nats_contains(v: Seq<u8>, x: u8)
    ensures
        nats(v).contains(x as nat) == v.contains(x),
{
    if v.contains(x) {
        let j = choose|j: int| 0 <= j < v.len() && v[j] == x;
        assert(nats(v)[j] == x as nat);
    }
    if nats(v).contains(x as nat) {
        let j = choose|j: int| 0 <= j < nats(v).len() && nats(v)[j] == x as nat;
        assert(v[j] == x);
    }
}

impl ChordType {
    /// The chord type's required intervals: its intervals that are not optional.
    pub fn required_intervals(&self) -> (v: Vec<Interval>)
        ensures
            v@ == self.required_seq(),
    {
        let all = self.intervals();
        let opt = self.optional_intervals();
        let ghost pred = |i: Interval| !self.optional_seq().contains(i);
        let mut v: Vec<Interval> = Vec::new();
        let mut i: usize = 0;
        while i < all.len()
            invariant
                i <= all.len(),
                all@ == self.interval_seq(),
                opt@ == self.optional_seq(),
                pred == (|i: Interval| !self.optional_seq().contains(i)),
                v@ == all@.take(i as int).filter(pred),
            decreases all.len() - i,
        {
            let x = all[i];
            let mut found = false;
            let mut j: usize = 0;
            while j < opt.len()
                invariant
                    j <= opt.len(),
                    found == opt@.take(j as int).contains(x),
                decreases opt.len() - j,
            {
                if opt[j] == x {
                    found = true;
                }
                proof {
                    assert(opt@.take(j + 1) =~= opt@.take(j as int).push(opt@[j as int]));
                    if opt@.take(j as int).contains(x) {
                        let k = choose|k: int| 0 <= k < j && opt@.take(j as int)[k] == x;
                        assert(opt@.take(j + 1)[k] == x);
                    }
                    if opt@[j as int] == x {
                        assert(opt@.take(j + 1)[j as int] == x);
                    }
                    let t1 = opt@.take(j + 1);
                    if t1.contains(x) {
                        let k = choose|k: int| 0 <= k < t1.len() && t1[k] == x;
                        if k < j {
                            assert(opt@.take(j as int)[k] == x);
                        }
                    }
                }
                j = j + 1;
            }
            assert(opt@.take(opt.len() as int) =~= opt@);
            if !found {
                v.push(x);
            }
            proof {
                reveal(Seq::filter);
                assert(all@.take(i + 1).drop_last() =~= all@.take(i as int));
            }
            i = i + 1;
        }
        assert(all@.take(all.len() as int) =~= all@);
        v
    }

    /// The preferred symbol of the chord type (the first one).
    pub fn to_symbol(self) -> (s: String)
        ensures
            s@ == self.symbol_seq()[0],
    {
        let syms = self.symbols();
        crate::text::string_from(syms[0])
    }

    /// Parse a chord type from one of its symbols; the first chord type (in the
    /// order of all chord types) with that symbol is chosen.
    pub fn from_str(s: &str) -> (r: Result<ChordType, &'static str>)
        ensures
            match r {
                Ok(ct) => chord_type_of_symbol(s@) == Some(ct),
                Err(e) => chord_type_of_symbol(s@) is None && e@ == "no valid chord type"@,
            },
    {
        let cs = chars_of(s);
        match ChordType::from_chars(&cs) {
            Some(ct) => Ok(ct),
            None => Err("no valid chord type"),
        }
    }

    /// The first chord type (in the order of all chord types) that has the given
    /// characters as one of its symbols.
    pub fn from_chars(cs: &Vec<char>) -> (r: Option<ChordType>)
        ensures
            r == chord_type_of_symbol(cs@),
    {
        let types = ChordType::values();
        let mut i: usize = 0;
        while i < types.len()
            invariant
                i <= types.len(),
                types@ == all_chord_types(),
                chord_type_of_symbol(cs@) == chord_type_of_symbol_from(cs@, i as nat),
            decreases types.len() - i,
        {
            let ct = types[i];
            let syms = ct.symbols();
            let mut j: usize = 0;
            while j < syms.len()
                invariant
                    i < types.len(),
                    types@ == all_chord_types(),
                    ct == types@[i as int],
                    chord_type_of_symbol(cs@) == chord_type_of_symbol_from(cs@, i as nat),
                    j <= syms.len(),
                    syms@.len() == ct.symbol_seq().len(),
                    forall|k: int| 0 <= k < syms@.len() ==> (#[trigger] syms@[k])@ == ct.symbol_seq()[k],
                    forall|k: int| 0 <= k < j ==> ct.symbol_seq()[k] != cs@,
                decreases syms.len() - j,
            {
                if str_eq_chars(syms[j], cs) {
                    assert(ct.symbol_seq()[j as int] == cs@);
                    assert(ct.symbol_seq().contains(cs@));
                    assert(ct == all_chord_types()[i as int]);
                    assert(chord_type_of_symbol_from(cs@, i as nat) == Some(ct));
                    return Some(ct);
                }
                j = j + 1;
            }
            assert(!ct.symbol_seq().contains(cs@));
            i = i + 1;
        }
        None
    }

    /// Determine the chord type from a list of pitch classes whose first entry
    /// is the root: the first chord type (in the order of all chord types) that
    /// the distances of the pitch classes from the root fit. An empty list
    /// matches no chord type.
    pub fn try_from(pitches: &[PitchClass]) -> (r: Result<ChordType, &'static str>)
        ensures
            match r {
                Ok(ct) => chord_type_of_pitches(pitches@) == Some(ct),
                Err(e) => chord_type_of_pitches(pitches@) is None
                    && e@ == "No matching chord type found."@,
            },
    {
        if pitches.len() == 0 {
            return Err("No matching chord type found.");
        }
        let root = pitches[0];
        let mut diffs: Vec<u8> = Vec::new();
        let mut i: usize = 0;
        while i < pitches.len()
            invariant
                i <= pitches@.len(),
                root == pitches@[0],
                diffs@.len() == i,
                forall|j: int| 0 <= j < i ==> diffs@[j] as nat == #[trigger] pitch_diffs(pitches@)[j],
            decreases pitches.len() - i,
        {
            let d = pitches[i].diff(root);
            diffs.push(d);
            i = i + 1;
        }
        assert(nats(diffs@) =~= pitch_diffs(pitches@));
        let types = ChordType::values();
        let mut t: usize = 0;
        while t < types.len()
            invariant
                t <= types.len(),
                types@ == all_chord_types(),
                nats(diffs@) == pitch_diffs(pitches@),
                chord_type_of_pitches(pitches@) == chord_type_fitting_from(nats(diffs@), t as nat),
            decreases types.len() - t,
        {
            let ct = types[t];
            if ChordType::fits_diffs(ct, &diffs) {
                return Ok(ct);
            }
            t = t + 1;
        }
        Err("No matching chord type found.")
    }

    /// Whether the distances from the root fit the chord type.
    fn fits_diffs(ct: ChordType, diffs: &Vec<u8>) -> (r: bool)
        ensures
            r == ct.fits(nats(diffs@)),
    {
        let n_intervals = ct.intervals().len();
        let min_len = if n_intervals < STRING_COUNT {
            n_intervals
        } else {
            STRING_COUNT
        };
        if diffs.len() < min_len {
            return false;
        }
        let req = reduce_all(&ct.required_intervals());
        let opt = reduce_all(&ct.optional_intervals());
        assert(nats(req@) =~= ct.required_semitones());
        assert(nats(opt@) =~= ct.optional_semitones());
        let ghost d = nats(diffs@);
        // All the required intervals need to be there.
        let mut count: usize = 0;
        let mut i: usize = 0;
        while i < diffs.len()
            invariant
                i <= diffs.len(),
                d == nats(diffs@),
                nats(req@) == ct.required_semitones(),
                nats(opt@) == ct.optional_semitones(),
                count <= i,
                count == count_members(d.take(i as int), nats(req@)),
            decreases diffs.len() - i,
        {
            let x = diffs[i];
            proof {
                lemma_nats_contains(req@, x);
                assert(d.take(i + 1).drop_last() =~= d.take(i as int));
            }
            if contains_u8(&req, x) {
                count = count + 1;
            }
            i = i + 1;
        }
        assert(d.take(diffs.len() as int) =~= d);
        if count != req.len() {
            return false;
        }
        // The remaining distances must all belong to optional intervals.
        let mut k: usize = 0;
        while k < diffs.len()
            invariant
                k <= diffs.len(),
                d == nats(diffs@),
                nats(req@) == ct.required_semitones(),
                nats(opt@) == ct.optional_semitones(),
                count_members(d, nats(req@)) == nats(req@).len(),
                diffs.len() >= min_len,
                min_len == if ct.interval_seq().len() < STRING_COUNT {
                    ct.interval_seq().len()
                } else {
                    STRING_COUNT as nat
                },
                forall|j: int|
                    0 <= j < k && !nats(req@).contains(d[j]) ==> nats(opt@).contains(d[j]),
            decreases diffs.len() - k,
        {
            let x = diffs[k];
            proof {
                lemma_nats_contains(req@, x);
                lemma_nats_contains(opt@, x);
                assert(d[k as int] == x as nat);
            }
            if !contains_u8(&req, x) && !contains_u8(&opt, x) {
                return false;
            }
            k = k + 1;
        }
        true
    }
}

} // verus!
verus! {

impl ChordType {
    /// All chord types, in the order in which they are listed and tried.
    pub fn values() -> (v: Vec<ChordType>)
        ensures
            v@ == all_chord_types(),
    {
        let v = vec![
            ChordType::Major,
            ChordType::MajorSeventh,
            ChordType::MajorNinth,
            ChordType::MajorEleventh,
            ChordType::MajorThirteenth,
            ChordType::MajorSixth,
            ChordType::SixthNinth,
            ChordType::DominantSeventh,
            ChordType::DominantNinth,
            ChordType::DominantEleventh,
            ChordType::DominantThirteenth,
            ChordType::DominantSeventhFlatNinth,
            ChordType::DominantSeventhSharpNinth,
            ChordType::DominantSeventhFlatFifth,
            ChordType::SuspendedFourth,
            ChordType::SuspendedSecond,
            ChordType::DominantSeventhSuspendedFourth,
            ChordType::DominantSeventhSuspendedSecond,
            ChordType::Minor,
            ChordType::MinorSeventh,
            ChordType::MinorMajorSeventh,
            ChordType::MinorSixth,
            ChordType::MinorNinth,
            ChordType::MinorEleventh,
            ChordType::MinorThirteenth,
            ChordType::Diminished,
            ChordType::DiminishedSeventh,
            ChordType::HalfDiminishedSeventh,
            ChordType::Fifth,
            ChordType::Augmented,
            ChordType::AugmentedSeventh,
            ChordType::AugmentedMajorSeventh,
            ChordType::AddedNinth,
            ChordType::AddedFourth,
        ];
        assert(v@ =~= all_chord_types());
        v
    }

    /// The chord type's intervals.
    pub fn intervals(&self) -> (v: Vec<Interval>)
        ensures
            v@ == self.interval_seq(),
    {
        let v = match self {
            ChordType::Major => vec![Interval::PerfectUnison, Interval::MajorThird, Interval::PerfectFifth],
            ChordType::MajorSeventh => vec![Interval::PerfectUnison, Interval::MajorThird, Interval::PerfectFifth, Interval::MajorSeventh],
            ChordType::MajorNinth => vec![Interval::PerfectUnison, Interval::MajorThird, Interval::PerfectFifth, Interval::MajorSeventh, Interval::MajorNinth],
            ChordType::MajorEleventh => vec![Interval::PerfectUnison, Interval::MajorThird, Interval::PerfectFifth, Interval::MajorSeventh, Interval::MajorNinth, Interval::PerfectEleventh],
            ChordType::MajorThirteenth => vec![Interval::PerfectUnison, Interval::MajorThird, Interval::PerfectFifth, Interval::MajorSeventh, Interval::MajorNinth, Interval::PerfectEleventh, Interval::MajorThirteenth],
            ChordType::MajorSixth => vec![Interval::PerfectUnison, Interval::MajorThird, Interval::PerfectFifth, Interval::MajorSixth],
            ChordType::SixthNinth => vec![Interval::PerfectUnison, Interval::MajorThird, Interval::PerfectFifth, Interval::MajorSixth, Interval::MajorNinth],
            ChordType::DominantSeventh => vec![Interval::PerfectUnison, Interval::MajorThird, Interval::PerfectFifth, Interval::MinorSeventh],
            ChordType::DominantNinth => vec![Interval::PerfectUnison, Interval::MajorThird, Interval::PerfectFifth, Interval::MinorSeventh, Interval::MajorNinth],
            ChordType::DominantEleventh => vec![Interval::PerfectUnison, Interval::MajorThird, Interval::PerfectFifth, Interval::MinorSeventh, Interval::MajorNinth, Interval::PerfectEleventh],
            ChordType::DominantThirteenth => vec![Interval::PerfectUnison, Interval::MajorThird, Interval::PerfectFifth, Interval::MinorSeventh, Interval::MajorNinth, Interval::PerfectEleventh, Interval::MajorThirteenth],
            ChordType::DominantSeventhFlatNinth => vec![Interval::PerfectUnison, Interval::MajorThird, Interval::PerfectFifth, Interval::MinorSeventh, Interval::MinorNinth],
            ChordType::DominantSeventhSharpNinth => vec![Interval::PerfectUnison, Interval::MajorThird, Interval::PerfectFifth, Interval::MinorSeventh, Interval::AugmentedNinth],
            ChordType::DominantSeventhFlatFifth => vec![Interval::PerfectUnison, Interval::MajorThird, Interval::DiminishedFifth, Interval::MinorSeventh],
            ChordType::SuspendedFourth => vec![Interval::PerfectUnison, Interval::PerfectFourth, Interval::PerfectFifth],
            ChordType::SuspendedSecond => vec![Interval::PerfectUnison, Interval::MajorSecond, Interval::PerfectFifth],
            ChordType::DominantSeventhSuspendedFourth => vec![Interval::PerfectUnison, Interval::PerfectFourth, Interval::PerfectFifth, Interval::MinorSeventh],
            ChordType::DominantSeventhSuspendedSecond => vec![Interval::PerfectUnison, Interval::MajorSecond, Interval::PerfectFifth, Interval::MinorSeventh],
            ChordType::Minor => vec![Interval::PerfectUnison, Interval::MinorThird, Interval::PerfectFifth],
            ChordType::MinorSeventh => vec![Interval::PerfectUnison, Interval::MinorThird, Interval::PerfectFifth, Interval::MinorSeventh],
            ChordType::MinorMajorSeventh => vec![Interval::PerfectUnison, Interval::MinorThird, Interval::PerfectFifth, Interval::MajorSeventh],
            ChordType::MinorSixth => vec![Interval::PerfectUnison, Interval::MinorThird, Interval::PerfectFifth, Interval::MajorSixth],
            ChordType::MinorNinth => vec![Interval::PerfectUnison, Interval::MinorThird, Interval::PerfectFifth, Interval::MinorSeventh, Interval::MajorNinth],
            ChordType::MinorEleventh => vec![Interval::PerfectUnison, Interval::MinorThird, Interval::PerfectFifth, Interval::MinorSeventh, Interval::MajorNinth, Interval::PerfectEleventh],
            ChordType::MinorThirteenth => vec![Interval::PerfectUnison, Interval::MinorThird, Interval::PerfectFifth, Interval::MinorSeventh, Interval::MajorNinth, Interval::PerfectEleventh, Interval::MajorThirteenth],
            ChordType::Diminished => vec![Interval::PerfectUnison, Interval::MinorThird, Interval::DiminishedFifth],
            ChordType::DiminishedSeventh => vec![Interval::PerfectUnison, Interval::MinorThird, Interval::DiminishedFifth, Interval::DiminishedSeventh],
            ChordType::HalfDiminishedSeventh => vec![Interval::PerfectUnison, Interval::MinorThird, Interval::DiminishedFifth, Interval::MinorSeventh],
            ChordType::Fifth => vec![Interval::PerfectUnison, Interval::PerfectFifth],
            ChordType::Augmented => vec![Interval::PerfectUnison, Interval::MajorThird, Interval::AugmentedFifth],
            ChordType::AugmentedSeventh => vec![Interval::PerfectUnison, Interval::MajorThird, Interval::AugmentedFifth, Interval::MinorSeventh],
            ChordType::AugmentedMajorSeventh => vec![Interval::PerfectUnison, Interval::MajorThird, Interval::AugmentedFifth, Interval::MajorSeventh],
            ChordType::AddedNinth => vec![Interval::PerfectUnison, Interval::MajorThird, Interval::PerfectFifth, Interval::MajorNinth],
            ChordType::AddedFourth => vec![Interval::PerfectUnison, Interval::MajorThird, Interval::PerfectFourth, Interval::PerfectFifth],
        };
        assert(v@ =~= self.interval_seq());
        v
    }

    /// The chord type's optional intervals: those that may be left out.
    pub fn optional_intervals(&self) -> (v: Vec<Interval>)
        ensures
            v@ == self.optional_seq(),
    {
        let v = match self {
            ChordType::MajorSeventh => vec![Interval::PerfectFifth],
            ChordType::MajorNinth => vec![Interval::PerfectFifth],
            ChordType::MajorEleventh => vec![Interval::PerfectFifth, Interval::MajorNinth],
            ChordType::MajorThirteenth => vec![Interval::PerfectFifth, Interval::MajorNinth, Interval::PerfectEleventh],
            ChordType::MajorSixth => vec![Interval::PerfectFifth],
            ChordType::SixthNinth => vec![Interval::PerfectFifth],
            ChordType::DominantSeventh => vec![Interval::PerfectFifth],
            ChordType::DominantNinth => vec![Interval::PerfectFifth],
            ChordType::DominantEleventh => vec![Interval::PerfectFifth, Interval::MajorNinth],
            ChordType::DominantThirteenth => vec![Interval::PerfectFifth, Interval::MajorNinth, Interval::PerfectEleventh],
            ChordType::DominantSeventhFlatNinth => vec![Interval::PerfectFifth],
            ChordType::DominantSeventhSharpNinth => vec![Interval::PerfectFifth],
            ChordType::SuspendedFourth => vec![Interval::PerfectFifth],
            ChordType::SuspendedSecond => vec![Interval::PerfectFifth],
            ChordType::DominantSeventhSuspendedFourth => vec![Interval::PerfectFifth],
            ChordType::DominantSeventhSuspendedSecond => vec![Interval::PerfectFifth],
            ChordType::MinorSeventh => vec![Interval::PerfectFifth],
            ChordType::MinorMajorSeventh => vec![Interval::PerfectFifth],
            ChordType::MinorSixth => vec![Interval::PerfectFifth],
            ChordType::MinorNinth => vec![Interval::PerfectFifth],
            ChordType::MinorEleventh => vec![Interval::PerfectFifth, Interval::MajorNinth],
            ChordType::MinorThirteenth => vec![Interval::PerfectFifth, Interval::MajorNinth, Interval::PerfectEleventh],
            ChordType::AddedNinth => vec![Interval::PerfectFifth],
            ChordType::AddedFourth => vec![Interval::PerfectFifth],
            _ => vec![],
        };
        assert(v@ =~= self.optional_seq());
        v
    }

    /// The symbols that can be used to denote the chord type.
    pub fn symbols(self) -> (v: Vec<&'static str>)
        ensures
            v@.len() == self.symbol_seq().len(),
            forall|j: int| 0 <= j < v@.len() ==> (#[trigger] v@[j])@ == self.symbol_seq()[j],
    {
        match self {
            ChordType::Major => {
                proof {
                    reveal_strlit("");
                    reveal_strlit("maj");
                    reveal_strlit("M");
                }
                let v = vec!["", "maj", "M"];
                assert(forall|j: int| 0 <= j < v@.len() ==> (#[trigger] v@[j])@ == self.symbol_seq()[j]);
                v
            },
            ChordType::MajorSeventh => {
                proof {
                    reveal_strlit("maj7");
                    reveal_strlit("M7");
                }
                let v = vec!["maj7", "M7"];
                assert(forall|j: int| 0 <= j < v@.len() ==> (#[trigger] v@[j])@ == self.symbol_seq()[j]);
                v
            },
            ChordType::MajorNinth => {
                proof {
                    reveal_strlit("maj9");
                    reveal_strlit("M9");
                }
                let v = vec!["maj9", "M9"];
                assert(forall|j: int| 0 <= j < v@.len() ==> (#[trigger] v@[j])@ == self.symbol_seq()[j]);
                v
            },
            ChordType::MajorEleventh => {
                proof {
                    reveal_strlit("maj11");
                    reveal_strlit("M11");
                }
                let v = vec!["maj11", "M11"];
                assert(forall|j: int| 0 <= j < v@.len() ==> (#[trigger] v@[j])@ == self.symbol_seq()[j]);
                v
            },
            ChordType::MajorThirteenth => {
                proof {
                    reveal_strlit("maj13");
                    reveal_strlit("M13");
                }
                let v = vec!["maj13", "M13"];
                assert(forall|j: int| 0 <= j < v@.len() ==> (#[trigger] v@[j])@ == self.symbol_seq()[j]);
                v
            },
            ChordType::MajorSixth => {
                proof {
                    reveal_strlit("6");
                    reveal_strlit("maj6");
                    reveal_strlit("M6");
                }
                let v = vec!["6", "maj6", "M6"];
                assert(forall|j: int| 0 <= j < v@.len() ==> (#[trigger] v@[j])@ == self.symbol_seq()[j]);
                v
            },
            ChordType::SixthNinth => {
                proof {
                    reveal_strlit("6/9");
                    reveal_strlit("maj6/9");
                    reveal_strlit("M6/9");
                }
                let v = vec!["6/9", "maj6/9", "M6/9"];
                assert(forall|j: int| 0 <= j < v@.len() ==> (#[trigger] v@[j])@ == self.symbol_seq()[j]);
                v
            },
            ChordType::DominantSeventh => {
                proof {
                    reveal_strlit("7");
                    reveal_strlit("dom");
                }
                let v = vec!["7", "dom"];
                assert(forall|j: int| 0 <= j < v@.len() ==> (#[trigger] v@[j])@ == self.symbol_seq()[j]);
                v
            },
            ChordType::DominantNinth => {
                proof {
                    reveal_strlit("9");
                }
                let v = vec!["9"];
                assert(forall|j: int| 0 <= j < v@.len() ==> (#[trigger] v@[j])@ == self.symbol_seq()[j]);
                v
            },
            ChordType::DominantEleventh => {
                proof {
                    reveal_strlit("11");
                }
                let v = vec!["11"];
                assert(forall|j: int| 0 <= j < v@.len() ==> (#[trigger] v@[j])@ == self.symbol_seq()[j]);
                v
            },
            ChordType::DominantThirteenth => {
                proof {
                    reveal_strlit("13");
                }
                let v = vec!["13"];
                assert(forall|j: int| 0 <= j < v@.len() ==> (#[trigger] v@[j])@ == self.symbol_seq()[j]);
                v
            },
            ChordType::DominantSeventhFlatNinth => {
                proof {
                    reveal_strlit("7b9");
                }
                let v = vec!["7b9"];
                assert(forall|j: int| 0 <= j < v@.len() ==> (#[trigger] v@[j])@ == self.symbol_seq()[j]);
                v
            },
            ChordType::DominantSeventhSharpNinth => {
                proof {
                    reveal_strlit("7#9");
                }
                let v = vec!["7#9"];
                assert(forall|j: int| 0 <= j < v@.len() ==> (#[trigger] v@[j])@ == self.symbol_seq()[j]);
                v
            },
            ChordType::DominantSeventhFlatFifth => {
                proof {
                    reveal_strlit("7b5");
                    reveal_strlit("7dim5");
                }
                let v = vec!["7b5", "7dim5"];
                assert(forall|j: int| 0 <= j < v@.len() ==> (#[trigger] v@[j])@ == self.symbol_seq()[j]);
                v
            },
            ChordType::SuspendedFourth => {
                proof {
                    reveal_strlit("sus4");
                    reveal_strlit("sus");
                }
                let v = vec!["sus4", "sus"];
                assert(forall|j: int| 0 <= j < v@.len() ==> (#[trigger] v@[j])@ == self.symbol_seq()[j]);
                v
            },
            ChordType::SuspendedSecond => {
                proof {
                    reveal_strlit("sus2");
                }
                let v = vec!["sus2"];
                assert(forall|j: int| 0 <= j < v@.len() ==> (#[trigger] v@[j])@ == self.symbol_seq()[j]);
                v
            },
            ChordType::DominantSeventhSuspendedFourth => {
                proof {
                    reveal_strlit("7sus4");
                    reveal_strlit("7sus");
                }
                let v = vec!["7sus4", "7sus"];
                assert(forall|j: int| 0 <= j < v@.len() ==> (#[trigger] v@[j])@ == self.symbol_seq()[j]);
                v
            },
            ChordType::DominantSeventhSuspendedSecond => {
                proof {
                    reveal_strlit("7sus2");
                }
                let v = vec!["7sus2"];
                assert(forall|j: int| 0 <= j < v@.len() ==> (#[trigger] v@[j])@ == self.symbol_seq()[j]);
                v
            },
            ChordType::Minor => {
                proof {
                    reveal_strlit("m");
                    reveal_strlit("min");
                }
                let v = vec!["m", "min"];
                assert(forall|j: int| 0 <= j < v@.len() ==> (#[trigger] v@[j])@ == self.symbol_seq()[j]);
                v
            },
            ChordType::MinorSeventh => {
                proof {
                    reveal_strlit("m7");
                    reveal_strlit("min7");
                }
                let v = vec!["m7", "min7"];
                assert(forall|j: int| 0 <= j < v@.len() ==> (#[trigger] v@[j])@ == self.symbol_seq()[j]);
                v
            },
            ChordType::MinorMajorSeventh => {
                proof {
                    reveal_strlit("mMaj7");
                    reveal_strlit("mM7");
                    reveal_strlit("minMaj7");
                }
                let v = vec!["mMaj7", "mM7", "minMaj7"];
                assert(forall|j: int| 0 <= j < v@.len() ==> (#[trigger] v@[j])@ == self.symbol_seq()[j]);
                v
            },
            ChordType::MinorSixth => {
                proof {
                    reveal_strlit("m6");
                    reveal_strlit("min6");
                }
                let v = vec!["m6", "min6"];
                assert(forall|j: int| 0 <= j < v@.len() ==> (#[trigger] v@[j])@ == self.symbol_seq()[j]);
                v
            },
            ChordType::MinorNinth => {
                proof {
                    reveal_strlit("m9");
                    reveal_strlit("min9");
                }
                let v = vec!["m9", "min9"];
                assert(forall|j: int| 0 <= j < v@.len() ==> (#[trigger] v@[j])@ == self.symbol_seq()[j]);
                v
            },
            ChordType::MinorEleventh => {
                proof {
                    reveal_strlit("m11");
                    reveal_strlit("min11");
                }
                let v = vec!["m11", "min11"];
                assert(forall|j: int| 0 <= j < v@.len() ==> (#[trigger] v@[j])@ == self.symbol_seq()[j]);
                v
            },
            ChordType::MinorThirteenth => {
                proof {
                    reveal_strlit("m13");
                    reveal_strlit("min13");
                }
                let v = vec!["m13", "min13"];
                assert(forall|j: int| 0 <= j < v@.len() ==> (#[trigger] v@[j])@ == self.symbol_seq()[j]);
                v
            },
            ChordType::Diminished => {
                proof {
                    reveal_strlit("dim");
                    reveal_strlit("o");
                }
                let v = vec!["dim", "o"];
                assert(forall|j: int| 0 <= j < v@.len() ==> (#[trigger] v@[j])@ == self.symbol_seq()[j]);
                v
            },
            ChordType::DiminishedSeventh => {
                proof {
                    reveal_strlit("dim7");
                    reveal_strlit("o7");
                }
                let v = vec!["dim7", "o7"];
                assert(forall|j: int| 0 <= j < v@.len() ==> (#[trigger] v@[j])@ == self.symbol_seq()[j]);
                v
            },
            ChordType::HalfDiminishedSeventh => {
                proof {
                    reveal_strlit("m7b5");
                    reveal_strlit("ø");
                    reveal_strlit("ø7");
                }
                let v = vec!["m7b5", "ø", "ø7"];
                assert(forall|j: int| 0 <= j < v@.len() ==> (#[trigger] v@[j])@ == self.symbol_seq()[j]);
                v
            },
            ChordType::Fifth => {
                proof {
                    reveal_strlit("5");
                }
                let v = vec!["5"];
                assert(forall|j: int| 0 <= j < v@.len() ==> (#[trigger] v@[j])@ == self.symbol_seq()[j]);
                v
            },
            ChordType::Augmented => {
                proof {
                    reveal_strlit("aug");
                    reveal_strlit("+");
                }
                let v = vec!["aug", "+"];
                assert(forall|j: int| 0 <= j < v@.len() ==> (#[trigger] v@[j])@ == self.symbol_seq()[j]);
                v
            },
            ChordType::AugmentedSeventh => {
                proof {
                    reveal_strlit("aug7");
                    reveal_strlit("+7");
                    reveal_strlit("7#5");
                }
                let v = vec!["aug7", "+7", "7#5"];
                assert(forall|j: int| 0 <= j < v@.len() ==> (#[trigger] v@[j])@ == self.symbol_seq()[j]);
                v
            },
            ChordType::AugmentedMajorSeventh => {
                proof {
                    reveal_strlit("augMaj7");
                    reveal_strlit("+M7");
                }
                let v = vec!["augMaj7", "+M7"];
                assert(forall|j: int| 0 <= j < v@.len() ==> (#[trigger] v@[j])@ == self.symbol_seq()[j]);
                v
            },
            ChordType::AddedNinth => {
                proof {
                    reveal_strlit("add9");
                    reveal_strlit("add2");
                }
                let v = vec!["add9", "add2"];
                assert(forall|j: int| 0 <= j < v@.len() ==> (#[trigger] v@[j])@ == self.symbol_seq()[j]);
                v
            },
            ChordType::AddedFourth => {
                proof {
                    reveal_strlit("add4");
                }
                let v = vec!["add4"];
                assert(forall|j: int| 0 <= j < v@.len() ==> (#[trigger] v@[j])@ == self.symbol_seq()[j]);
                v
            },
        }
    }

    /// The chord type's name, as in "major 7th".
    pub fn to_string(self) -> (s: String)
        ensures
            s@ == self.name(),
    {
        let s: &'static str = match self {
            ChordType::Major => "major",
            ChordType::MajorSeventh => "major 7th",
            ChordType::MajorNinth => "major 9th",
            ChordType::MajorEleventh => "major 11th",
            ChordType::MajorThirteenth => "major 13th",
            ChordType::MajorSixth => "major 6th",
            ChordType::SixthNinth => "6th/9th",
            ChordType::DominantSeventh => "dominant 7th",
            ChordType::DominantNinth => "dominant 9th",
            ChordType::DominantEleventh => "dominant 11th",
            ChordType::DominantThirteenth => "dominant 13th",
            ChordType::DominantSeventhFlatNinth => "dominant 7th flat 9th",
            ChordType::DominantSeventhSharpNinth => "dominant 7th sharp 9th",
            ChordType::DominantSeventhFlatFifth => "dominant 7th flat 5th",
            ChordType::SuspendedFourth => "suspended 4th",
            ChordType::SuspendedSecond => "suspended 2nd",
            ChordType::DominantSeventhSuspendedFourth => "dominant 7th suspended 4th",
            ChordType::DominantSeventhSuspendedSecond => "dominant 7th suspended 2nd",
            ChordType::Minor => "minor",
            ChordType::MinorSeventh => "minor 7th",
            ChordType::MinorMajorSeventh => "minor/major 7th",
            ChordType::MinorSixth => "minor 6th",
            ChordType::MinorNinth => "minor 9th",
            ChordType::MinorEleventh => "minor 11th",
            ChordType::MinorThirteenth => "minor 13th",
            ChordType::Diminished => "diminished",
            ChordType::DiminishedSeventh => "diminished 7th",
            ChordType::HalfDiminishedSeventh => "half-diminished 7th",
            ChordType::Fifth => "5th",
            ChordType::Augmented => "augmented",
            ChordType::AugmentedSeventh => "augmented 7th",
            ChordType::AugmentedMajorSeventh => "augmented major 7th",
            ChordType::AddedNinth => "added 9th",
            ChordType::AddedFourth => "added 4th",
        };
        crate::text::string_from(s)
    }
}

} // verus!
