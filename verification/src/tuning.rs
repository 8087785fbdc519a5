//! Ukulele tunings.

use vstd::prelude::*;

use crate::interval::Interval;
use crate::note::Note;
use crate::pitch_class::PitchClass;
use crate::staff_position::StaffPosition;
use crate::Semitones;

verus! {

/// Error for strings that do not name a tuning.
#[derive(Debug)]
pub struct ParseTuningError {
    pub name: String,
}

impl ParseTuningError {
    /// The error message.
    pub fn to_string(&self) -> (s: String)
        ensures
            s@ == "Could not parse tuning name \""@ + self.name@ + "\""@,
    {
        crate::text::quoted_message("Could not parse tuning name \"", &self.name)
    }
}

/// The tuning of the ukulele: the notes of its open strings.
#[derive(Debug, Clone, Copy, PartialEq, Eq, Structural, Hash)]
pub enum Tuning {
    C,
    D,
    G,
}

/// The open strings of a ukulele in C tuning: G, C, E, A.
pub open spec fn c_tuning_strings() -> Seq<Note> {
    seq![
        Note { pitch_class: PitchClass::G, staff_position: StaffPosition::GPos },
        Note { pitch_class: PitchClass::C, staff_position: StaffPosition::CPos },
        Note { pitch_class: PitchClass::E, staff_position: StaffPosition::EPos },
        Note { pitch_class: PitchClass::A, staff_position: StaffPosition::APos },
    ]
}

impl Tuning {
    /// The number of semitones by which the tuning lies above C tuning.
    pub open spec fn semitones(self) -> nat {
        match self {
            Tuning::C => 0,
            Tuning::D => 2,
            Tuning::G => 7,
        }
    }

    /// The interval by which the tuning lies above C tuning.
    pub open spec fn interval(self) -> Interval {
        match self {
            Tuning::C => Interval::PerfectUnison,
            Tuning::D => Interval::MajorSecond,
            Tuning::G => Interval::PerfectFifth,
        }
    }

    /// The notes of the open strings, from the string nearest to the chin
    /// (G in C tuning) to the string nearest to the floor (A in C tuning).
    pub open spec fn root_seq(self) -> Seq<Note> {
        c_tuning_strings().map_values(|n: Note| n.plus(self.interval()))
    }

    /// The tuning's name: "C", "D" or "G".
    pub open spec fn name(self) -> Seq<char> {
        match self {
            Tuning::C => "C"@,
            Tuning::D => "D"@,
            Tuning::G => "G"@,
        }
    }

    /// The number of semitones by which the tuning lies above C tuning.
    pub fn get_semitones(self) -> (r: Semitones)
        ensures
            r == self.semitones(),
    {
        match self {
            Tuning::C => 0,
            Tuning::D => 2,
            Tuning::G => 7,
        }
    }

    /// The interval by which the tuning lies above C tuning.
    pub fn get_interval(self) -> (r: Interval)
        ensures
            r == self.interval(),
    {
        match self {
            Tuning::C => Interval::PerfectUnison,
            Tuning::D => Interval::MajorSecond,
            Tuning::G => Interval::PerfectFifth,
        }
    }

    /// The notes of the four open strings.
    pub fn roots(self) -> (v: Vec<Note>)
        ensures
            v@ == self.root_seq(),
            v@.len() == 4,
    {
        let interval = self.get_interval();
        let v = vec![
            Note::new(PitchClass::G, StaffPosition::GPos).add_interval(interval),
            Note::new(PitchClass::C, StaffPosition::CPos).add_interval(interval),
            Note::new(PitchClass::E, StaffPosition::EPos).add_interval(interval),
            Note::new(PitchClass::A, StaffPosition::APos).add_interval(interval),
        ];
        assert(v@ =~= self.root_seq());
        v
    }

    /// The tuning's name: "C", "D" or "G".
    pub fn to_string(self) -> (s: String)
        ensures
            s@ == self.name(),
    {
        let s: &'static str = match self {
            Tuning::C => "C",
            Tuning::D => "D",
            Tuning::G => "G",
        };
        crate::text::string_from(s)
    }

    /// The tuning with the given name: "C", "D" or "G".
    pub fn from_str(s: &str) -> (r: Result<Tuning, ParseTuningError>)
        ensures
            match r {
                Ok(t) => t.name() == s@,
                Err(e) => s@ != "C"@ && s@ != "D"@ && s@ != "G"@ && e.name@ == s@,
            },
    {
        let cs = crate::text::chars_of(s);
        if crate::text::str_eq_chars("C", &cs) {
            Ok(Tuning::C)
        } else if crate::text::str_eq_chars("D", &cs) {
            Ok(Tuning::D)
        } else if crate::text::str_eq_chars("G", &cs) {
            Ok(Tuning::G)
        } else {
            Err(ParseTuningError { name: crate::text::string_from(s) })
        }
    }

    /// All tunings.
    pub fn variants() -> (v: Vec<Tuning>)
        ensures
            v@ == seq![Tuning::C, Tuning::D, Tuning::G],
    {
        let v = vec![Tuning::C, Tuning::D, Tuning::G];
        assert(v@ =~= seq![Tuning::C, Tuning::D, Tuning::G]);
        v
    }
}

} // verus!
