//! Notes: a pitch class together with the staff position it is written on.

use vstd::prelude::*;

use crate::interval::Interval;
use crate::pitch_class::PitchClass;
use crate::staff_position::StaffPosition;
use crate::text::chars_of;
use crate::Semitones;

verus! {

/// Error for strings that cannot be parsed into notes.
#[derive(Debug)]
pub struct ParseNoteError {
    pub name: String,
}

impl ParseNoteError {
    /// The error message.
    pub fn to_string(&self) -> (s: String)
        ensures
            s@ == "Could not parse note name \""@ + self.name@ + "\""@,
    {
        crate::text::quoted_message("Could not parse note name \"", &self.name)
    }
}

/// The seventeen note names that the library reads and writes, numbered
/// in this order: C, C#, Db, D, D#, Eb, E, F, F#, Gb, G, G#, Ab, A, A#, Bb, B.
pub open spec fn name_of_code(k: nat) -> Seq<char> {
    if k == 0 {
        seq!['C']
    } else if k == 1 {
        seq!['C', '#']
    } else if k == 2 {
        seq!['D', 'b']
    } else if k == 3 {
        seq!['D']
    } else if k == 4 {
        seq!['D', '#']
    } else if k == 5 {
        seq!['E', 'b']
    } else if k == 6 {
        seq!['E']
    } else if k == 7 {
        seq!['F']
    } else if k == 8 {
        seq!['F', '#']
    } else if k == 9 {
        seq!['G', 'b']
    } else if k == 10 {
        seq!['G']
    } else if k == 11 {
        seq!['G', '#']
    } else if k == 12 {
        seq!['A', 'b']
    } else if k == 13 {
        seq!['A']
    } else if k == 14 {
        seq!['A', '#']
    } else if k == 15 {
        seq!['B', 'b']
    } else {
        seq!['B']
    }
}

/// The pitch class and staff position that each of the seventeen names stands for.
pub open spec fn note_of_code(k: nat) -> (PitchClass, StaffPosition) {
    if k == 0 {
        (PitchClass::C, StaffPosition::CPos)
    } else if k == 1 {
        (PitchClass::CSharp, StaffPosition::CPos)
    } else if k == 2 {
        (PitchClass::CSharp, StaffPosition::DPos)
    } else if k == 3 {
        (PitchClass::D, StaffPosition::DPos)
    } else if k == 4 {
        (PitchClass::DSharp, StaffPosition::DPos)
    } else if k == 5 {
        (PitchClass::DSharp, StaffPosition::EPos)
    } else if k == 6 {
        (PitchClass::E, StaffPosition::EPos)
    } else if k == 7 {
        (PitchClass::F, StaffPosition::FPos)
    } else if k == 8 {
        (PitchClass::FSharp, StaffPosition::FPos)
    } else if k == 9 {
        (PitchClass::FSharp, StaffPosition::GPos)
    } else if k == 10 {
        (PitchClass::G, StaffPosition::GPos)
    } else if k == 11 {
        (PitchClass::GSharp, StaffPosition::GPos)
    } else if k == 12 {
        (PitchClass::GSharp, StaffPosition::APos)
    } else if k == 13 {
        (PitchClass::A, StaffPosition::APos)
    } else if k == 14 {
        (PitchClass::ASharp, StaffPosition::APos)
    } else if k == 15 {
        (PitchClass::ASharp, StaffPosition::BPos)
    } else {
        (PitchClass::B, StaffPosition::BPos)
    }
}

/// The name under which a pitch class written on a staff position is shown,
/// as the number of one of the seventeen names. Double sharps and double
/// flats and the spellings Cb, Fb, E# and B# are shown by the name of the
/// pitch class they sound as; a pitch class more than two semitones away
/// from the natural note of the staff position has no name.
pub open spec fn spelled(sp: StaffPosition, pc: PitchClass) -> Option<nat> {
    match (sp, pc) {
        (StaffPosition::CPos, PitchClass::ASharp) => Some(15nat),
        (StaffPosition::CPos, PitchClass::B) => Some(16nat),
        (StaffPosition::CPos, PitchClass::C) => Some(0nat),
        (StaffPosition::CPos, PitchClass::CSharp) => Some(1nat),
        (StaffPosition::CPos, PitchClass::D) => Some(3nat),
        (StaffPosition::DPos, PitchClass::C) => Some(0nat),
        (StaffPosition::DPos, PitchClass::CSharp) => Some(2nat),
        (StaffPosition::DPos, PitchClass::D) => Some(3nat),
        (StaffPosition::DPos, PitchClass::DSharp) => Some(4nat),
        (StaffPosition::DPos, PitchClass::E) => Some(6nat),
        (StaffPosition::EPos, PitchClass::D) => Some(3nat),
        (StaffPosition::EPos, PitchClass::DSharp) => Some(5nat),
        (StaffPosition::EPos, PitchClass::E) => Some(6nat),
        (StaffPosition::EPos, PitchClass::F) => Some(7nat),
        (StaffPosition::EPos, PitchClass::FSharp) => Some(8nat),
        (StaffPosition::FPos, PitchClass::DSharp) => Some(5nat),
        (StaffPosition::FPos, PitchClass::E) => Some(6nat),
        (StaffPosition::FPos, PitchClass::F) => Some(7nat),
        (StaffPosition::FPos, PitchClass::FSharp) => Some(8nat),
        (StaffPosition::FPos, PitchClass::G) => Some(10nat),
        (StaffPosition::GPos, PitchClass::F) => Some(7nat),
        (StaffPosition::GPos, PitchClass::FSharp) => Some(9nat),
        (StaffPosition::GPos, PitchClass::G) => Some(10nat),
        (StaffPosition::GPos, PitchClass::GSharp) => Some(11nat),
        (StaffPosition::GPos, PitchClass::A) => Some(13nat),
        (StaffPosition::APos, PitchClass::G) => Some(10nat),
        (StaffPosition::APos, PitchClass::GSharp) => Some(12nat),
        (StaffPosition::APos, PitchClass::A) => Some(13nat),
        (StaffPosition::APos, PitchClass::ASharp) => Some(14nat),
        (StaffPosition::APos, PitchClass::B) => Some(16nat),
        (StaffPosition::BPos, PitchClass::A) => Some(13nat),
        (StaffPosition::BPos, PitchClass::ASharp) => Some(15nat),
        (StaffPosition::BPos, PitchClass::B) => Some(16nat),
        (StaffPosition::BPos, PitchClass::C) => Some(0nat),
        (StaffPosition::BPos, PitchClass::CSharp) => Some(1nat),
        _ => None,
    }
}

/// The note named by a string, if it is one of the seventeen names.
pub open spec fn parse_note_name(s: Seq<char>) -> Option<nat> {
    if s.len() == 1 {
        let a = s[0];
        if a == 'C' {
            Some(0nat)
        } else if a == 'D' {
            Some(3nat)
        } else if a == 'E' {
            Some(6nat)
        } else if a == 'F' {
            Some(7nat)
        } else if a == 'G' {
            Some(10nat)
        } else if a == 'A' {
            Some(13nat)
        } else if a == 'B' {
            Some(16nat)
        } else {
            None
        }
    } else if s.len() == 2 {
        let a = s[0];
        let b = s[1];
        if a == 'C' && b == '#' {
            Some(1nat)
        } else if a == 'D' && b == 'b' {
            Some(2nat)
        } else if a == 'D' && b == '#' {
            Some(4nat)
        } else if a == 'E' && b == 'b' {
            Some(5nat)
        } else if a == 'F' && b == '#' {
            Some(8nat)
        } else if a == 'G' && b == 'b' {
            Some(9nat)
        } else if a == 'G' && b == '#' {
            Some(11nat)
        } else if a == 'A' && b == 'b' {
            Some(12nat)
        } else if a == 'A' && b == '#' {
            Some(14nat)
        } else if a == 'B' && b == 'b' {
            Some(15nat)
        } else {
            None
        }
    } else {
        None
    }
}

/// A note such as C, C#, Db and so on.
///
/// Notes are ordered by pitch class first and staff position second.
#[derive(Debug, Clone, Copy, PartialOrd, Ord, Hash)]
pub struct Note {
    pub pitch_class: PitchClass,
    pub staff_position: StaffPosition,
}

impl Note {
    /// The number of the name under which the note is shown, if it has one.
    pub open spec fn code(self) -> Option<nat> {
        spelled(self.staff_position, self.pitch_class)
    }

    /// The note can be written with one of the seventeen names
    /// (at most two semitones away from the natural note of its staff position).
    pub open spec fn valid(self) -> bool {
        self.code() is Some
    }

    /// The note is written with a single accidental or none, as one of the
    /// seventeen names (C, C#, Db, ..., Bb, B) with this very staff position.
    pub open spec fn is_named(self) -> bool {
        exists|k: nat| k < 17 && note_of_code(k) == (self.pitch_class, self.staff_position)
    }

    /// The note's name.
    pub open spec fn name(self) -> Seq<char> {
        name_of_code(self.code().unwrap())
    }

    /// Two notes are the same if they sound the same, that is if they have
    /// the same pitch class: B sharp, C and D double flat are all C, and so
    /// are C sharp and D flat the same note. Chords rely on this: B + M2 is
    /// written C# (Bsus2 is B C# F#), and B7sus2 is B Db F# A all the same;
    /// and the frets 0333 in C tuning, written G D# G C, play C minor
    /// (C Eb G).
    pub open spec fn same(self, other: Note) -> bool {
        self.pitch_class == other.pitch_class
    }

    /// The note spelled with a sharp (or as a natural note): C#, D#, F#, G#, A#.
    pub open spec fn sharp_of(pc: PitchClass) -> (PitchClass, StaffPosition) {
        let sp = match pc {
            PitchClass::C | PitchClass::CSharp => StaffPosition::CPos,
            PitchClass::D | PitchClass::DSharp => StaffPosition::DPos,
            PitchClass::E => StaffPosition::EPos,
            PitchClass::F | PitchClass::FSharp => StaffPosition::FPos,
            PitchClass::G | PitchClass::GSharp => StaffPosition::GPos,
            PitchClass::A | PitchClass::ASharp => StaffPosition::APos,
            PitchClass::B => StaffPosition::BPos,
        };
        (pc, sp)
    }

    /// The note spelled with a flat (or as a natural note): Db, Eb, Gb, Ab, Bb.
    pub open spec fn flat_of(pc: PitchClass) -> (PitchClass, StaffPosition) {
        let sp = match pc {
            PitchClass::C => StaffPosition::CPos,
            PitchClass::CSharp | PitchClass::D => StaffPosition::DPos,
            PitchClass::DSharp | PitchClass::E => StaffPosition::EPos,
            PitchClass::F => StaffPosition::FPos,
            PitchClass::FSharp | PitchClass::G => StaffPosition::GPos,
            PitchClass::GSharp | PitchClass::A => StaffPosition::APos,
            PitchClass::ASharp | PitchClass::B => StaffPosition::BPos,
        };
        (pc, sp)
    }

    /// The pitch class and staff position of a note.
    pub open spec fn parts(self) -> (PitchClass, StaffPosition) {
        (self.pitch_class, self.staff_position)
    }

    /// The note with the given pitch class and staff position.
    pub open spec fn of_parts(p: (PitchClass, StaffPosition)) -> Note {
        Note { pitch_class: p.0, staff_position: p.1 }
    }

    /// The note reached by adding `interval`.
    pub open spec fn plus(self, interval: Interval) -> Note {
        Note::of_parts(self.plus_interval(interval))
    }

    /// The note `n` semitones higher: the same note for a whole number of
    /// octaves, otherwise spelled with a sharp.
    pub open spec fn up(self, n: nat) -> Note {
        if n % 12 == 0 {
            self
        } else {
            Note::of_parts(Note::sharp_of(PitchClass::of((self.pitch_class.value() + n) as int)))
        }
    }

    /// The note `n` semitones lower: the same note for a whole number of
    /// octaves, otherwise spelled with a flat.
    pub open spec fn down(self, n: nat) -> Note {
        if n % 12 == 0 {
            self
        } else {
            Note::of_parts(Note::flat_of(PitchClass::of(self.pitch_class.value() - n)))
        }
    }

    /// The note reached by adding `interval` to a note: the pitch class moves up
    /// by the interval's semitones, the staff position by its number minus one.
    pub open spec fn plus_interval(self, interval: Interval) -> (PitchClass, StaffPosition) {
        (
            PitchClass::of((self.pitch_class.value() + interval.semitones()) as int),
            StaffPosition::of(self.staff_position.value() + interval.number() - 1),
        )
    }

    /// Create a note from a pitch class and a staff position.
    pub fn new(pitch_class: PitchClass, staff_position: StaffPosition) -> (n: Note)
        ensures
            n.pitch_class == pitch_class,
            n.staff_position == staff_position,
    {
        Note { pitch_class, staff_position }
    }

    /// The staff position the note is written on.
    pub fn staff_position(&self) -> (sp: StaffPosition)
        ensures
            sp == self.staff_position,
    {
        self.staff_position
    }

    /// Convert a pitch class into a note. For notes that can be sharp or flat
    /// use the sharp version.
    pub fn from_pitch_class(pitch_class: PitchClass) -> (n: Note)
        ensures
            n == Note::of_parts(Note::sharp_of(pitch_class)),
    {
        let staff_position = match pitch_class {
            PitchClass::C | PitchClass::CSharp => StaffPosition::CPos,
            PitchClass::D | PitchClass::DSharp => StaffPosition::DPos,
            PitchClass::E => StaffPosition::EPos,
            PitchClass::F | PitchClass::FSharp => StaffPosition::FPos,
            PitchClass::G | PitchClass::GSharp => StaffPosition::GPos,
            PitchClass::A | PitchClass::ASharp => StaffPosition::APos,
            PitchClass::B => StaffPosition::BPos,
        };
        Note { pitch_class, staff_position }
    }

    /// Convert a pitch class into a note, using the flat version for notes
    /// that can be sharp or flat.
    pub fn flat_from_pitch_class(pitch_class: PitchClass) -> (n: Note)
        ensures
            n == Note::of_parts(Note::flat_of(pitch_class)),
    {
        let staff_position = match pitch_class {
            PitchClass::C => StaffPosition::CPos,
            PitchClass::CSharp | PitchClass::D => StaffPosition::DPos,
            PitchClass::DSharp | PitchClass::E => StaffPosition::EPos,
            PitchClass::F => StaffPosition::FPos,
            PitchClass::FSharp | PitchClass::G => StaffPosition::GPos,
            PitchClass::GSharp | PitchClass::A => StaffPosition::APos,
            PitchClass::ASharp | PitchClass::B => StaffPosition::BPos,
        };
        Note { pitch_class, staff_position }
    }

    /// Get the next note when adding `interval` to the current note.
    pub fn add_interval(self, interval: Interval) -> (n: Note)
        ensures
            n == self.plus(interval),
    {
        let pitch_class = self.pitch_class.add_semitones(interval.to_semitones());
        let staff_position = self.staff_position.add_steps(interval.to_number() - 1);
        Note { pitch_class, staff_position }
    }

    /// Get the note that is `n` semitones higher. A whole number of octaves
    /// keeps the note as it is; otherwise the result is spelled with a sharp.
    pub fn add_semitones(self, n: Semitones) -> (r: Note)
        requires
            self.pitch_class.value() + n <= u8::MAX,
        ensures
            r == self.up(n as nat),
    {
        if n % 12 == 0 {
            self
        } else {
            Note::from_pitch_class(self.pitch_class.add_semitones(n))
        }
    }

    /// Get the note that is `n` semitones lower. A whole number of octaves
    /// keeps the note as it is; otherwise the result is spelled with a flat.
    pub fn sub_semitones(self, n: Semitones) -> (r: Note)
        ensures
            r == self.down(n as nat),
    {
        if n % 12 == 0 {
            self
        } else {
            Note::flat_from_pitch_class(self.pitch_class.sub_semitones(n))
        }
    }

    /// The number of the note's name, if it has one.
    pub fn name_code(&self) -> (k: Option<u8>)
        ensures
            match k {
                Some(k) => self.code() == Some(k as nat),
                None => self.code() is None,
            },
    {
        match (self.staff_position, self.pitch_class) {
            (StaffPosition::CPos, PitchClass::ASharp) => Some(15),
            (StaffPosition::CPos, PitchClass::B) => Some(16),
            (StaffPosition::CPos, PitchClass::C) => Some(0),
            (StaffPosition::CPos, PitchClass::CSharp) => Some(1),
            (StaffPosition::CPos, PitchClass::D) => Some(3),
            (StaffPosition::DPos, PitchClass::C) => Some(0),
            (StaffPosition::DPos, PitchClass::CSharp) => Some(2),
            (StaffPosition::DPos, PitchClass::D) => Some(3),
            (StaffPosition::DPos, PitchClass::DSharp) => Some(4),
            (StaffPosition::DPos, PitchClass::E) => Some(6),
            (StaffPosition::EPos, PitchClass::D) => Some(3),
            (StaffPosition::EPos, PitchClass::DSharp) => Some(5),
            (StaffPosition::EPos, PitchClass::E) => Some(6),
            (StaffPosition::EPos, PitchClass::F) => Some(7),
            (StaffPosition::EPos, PitchClass::FSharp) => Some(8),
            (StaffPosition::FPos, PitchClass::DSharp) => Some(5),
            (StaffPosition::FPos, PitchClass::E) => Some(6),
            (StaffPosition::FPos, PitchClass::F) => Some(7),
            (StaffPosition::FPos, PitchClass::FSharp) => Some(8),
            (StaffPosition::FPos, PitchClass::G) => Some(10),
            (StaffPosition::GPos, PitchClass::F) => Some(7),
            (StaffPosition::GPos, PitchClass::FSharp) => Some(9),
            (StaffPosition::GPos, PitchClass::G) => Some(10),
            (StaffPosition::GPos, PitchClass::GSharp) => Some(11),
            (StaffPosition::GPos, PitchClass::A) => Some(13),
            (StaffPosition::APos, PitchClass::G) => Some(10),
            (StaffPosition::APos, PitchClass::GSharp) => Some(12),
            (StaffPosition::APos, PitchClass::A) => Some(13),
            (StaffPosition::APos, PitchClass::ASharp) => Some(14),
            (StaffPosition::APos, PitchClass::B) => Some(16),
            (StaffPosition::BPos, PitchClass::A) => Some(13),
            (StaffPosition::BPos, PitchClass::ASharp) => Some(15),
            (StaffPosition::BPos, PitchClass::B) => Some(16),
            (StaffPosition::BPos, PitchClass::C) => Some(0),
            (StaffPosition::BPos, PitchClass::CSharp) => Some(1),
            _ => None,
        }
    }

    /// The note's name, such as `C`, `C#` or `Db`.
    pub fn to_str(&self) -> (s: &'static str)
        requires
            self.valid(),
        ensures
            s@ == self.name(),
    {
        let k = self.name_code().unwrap();
        name_str(k)
    }

    /// The note's name as an owned string.
    pub fn to_string(&self) -> (s: String)
        requires
            self.valid(),
        ensures
            s@ == self.name(),
    {
        crate::text::string_from(self.to_str())
    }

    /// Parse a note from one of the names C, C#, Db, D, D#, Eb, E, F, F#, Gb,
    /// G, G#, Ab, A, A#, Bb, B.
    pub fn from_str(s: &str) -> (r: Result<Note, ParseNoteError>)
        ensures
            match r {
                Ok(n) => parse_note_name(s@) matches Some(k) && n.parts() == note_of_code(k),
                Err(e) => parse_note_name(s@) is None && e.name@ == s@,
            },
    {
        let cs = chars_of(s);
        match note_code_of_chars(&cs) {
            Some(k) => Ok(note_from_code(k)),
            None => Err(ParseNoteError { name: crate::text::string_from(s) }),
        }
    }
}

impl PartialEq for Note {
    fn eq(&self, other: &Self) -> (r: bool) {
        self.pitch_class == other.pitch_class
    }
}

impl Eq for Note {
}

impl vstd::std_specs::cmp::PartialEqSpecImpl for Note {
    open spec fn obeys_eq_spec() -> bool {
        true
    }

    open spec fn eq_spec(&self, other: &Self) -> bool {
        self.same(*other)
    }
}

/// Reading the name of one of the seventeen notes gives back that note.
pub proof fn lemma_parse_name_of_code(k: nat)
    requires
        k < 17,
    ensures
        parse_note_name(name_of_code(k)) == Some(k),
{
}

/// No two of the seventeen notes share a name.
pub proof fn law_names_distinct(a: nat, b: nat)
    requires
        a < 17,
        b < 17,
    ensures
        (name_of_code(a) == name_of_code(b)) == (a == b),
{
    lemma_parse_name_of_code(a);
    lemma_parse_name_of_code(b);
}

/// Each of the seventeen names is shown again under the same name.
pub proof fn lemma_code_of_named(k: nat)
    requires
        k < 17,
    ensures
        spelled(note_of_code(k).1, note_of_code(k).0) == Some(k),
{
}

/// Adding an interval to a note written with at most one accidental gives a
/// note that can be named: at most two semitones away from its natural note.
pub proof fn law_plus_interval_named(n: Note, interval: Interval)
    requires
        n.is_named(),
    ensures
        spelled(n.plus_interval(interval).1, n.plus_interval(interval).0) is Some,
{
    let k = choose|k: nat| k < 17 && note_of_code(k) == (n.pitch_class, n.staff_position);
    assert(k == 0 || k == 1 || k == 2 || k == 3 || k == 4 || k == 5 || k == 6 || k == 7 || k == 8
        || k == 9 || k == 10 || k == 11 || k == 12 || k == 13 || k == 14 || k == 15 || k == 16);
    match interval {
        Interval::PerfectUnison => {},
        Interval::MajorSecond => {},
        Interval::MinorThird => {},
        Interval::MajorThird => {},
        Interval::PerfectFourth => {},
        Interval::DiminishedFifth => {},
        Interval::PerfectFifth => {},
        Interval::AugmentedFifth => {},
        Interval::MajorSixth => {},
        Interval::DiminishedSeventh => {},
        Interval::MinorSeventh => {},
        Interval::MajorSeventh => {},
        Interval::MinorNinth => {},
        Interval::MajorNinth => {},
        Interval::AugmentedNinth => {},
        Interval::PerfectEleventh => {},
        Interval::MajorThirteenth => {},
    }
}

/// The notes spelled with a sharp or a flat are among the seventeen names.
pub proof fn law_sharp_flat_named(pc: PitchClass)
    ensures
        exists|k: nat| k < 17 && note_of_code(k) == Note::sharp_of(pc),
        exists|k: nat| k < 17 && note_of_code(k) == Note::flat_of(pc),
{
    match pc {
        PitchClass::C => { assert(note_of_code(0) == Note::sharp_of(pc)); assert(note_of_code(0) == Note::flat_of(pc)); },
        PitchClass::CSharp => { assert(note_of_code(1) == Note::sharp_of(pc)); assert(note_of_code(2) == Note::flat_of(pc)); },
        PitchClass::D => { assert(note_of_code(3) == Note::sharp_of(pc)); assert(note_of_code(3) == Note::flat_of(pc)); },
        PitchClass::DSharp => { assert(note_of_code(4) == Note::sharp_of(pc)); assert(note_of_code(5) == Note::flat_of(pc)); },
        PitchClass::E => { assert(note_of_code(6) == Note::sharp_of(pc)); assert(note_of_code(6) == Note::flat_of(pc)); },
        PitchClass::F => { assert(note_of_code(7) == Note::sharp_of(pc)); assert(note_of_code(7) == Note::flat_of(pc)); },
        PitchClass::FSharp => { assert(note_of_code(8) == Note::sharp_of(pc)); assert(note_of_code(9) == Note::flat_of(pc)); },
        PitchClass::G => { assert(note_of_code(10) == Note::sharp_of(pc)); assert(note_of_code(10) == Note::flat_of(pc)); },
        PitchClass::GSharp => { assert(note_of_code(11) == Note::sharp_of(pc)); assert(note_of_code(12) == Note::flat_of(pc)); },
        PitchClass::A => { assert(note_of_code(13) == Note::sharp_of(pc)); assert(note_of_code(13) == Note::flat_of(pc)); },
        PitchClass::ASharp => { assert(note_of_code(14) == Note::sharp_of(pc)); assert(note_of_code(15) == Note::flat_of(pc)); },
        PitchClass::B => { assert(note_of_code(16) == Note::sharp_of(pc)); assert(note_of_code(16) == Note::flat_of(pc)); },
    }
}

/// Reading a note name and writing the note gives back the same name.
pub proof fn law_parse_then_name(s: Seq<char>)
    requires
        parse_note_name(s) is Some,
    ensures
        spelled(
            note_of_code(parse_note_name(s).unwrap()).1,
            note_of_code(parse_note_name(s).unwrap()).0,
        ) == parse_note_name(s),
        name_of_code(parse_note_name(s).unwrap()) == s,
{
    let k = parse_note_name(s).unwrap();
    lemma_code_of_named(k);
    if s.len() == 1 {
        assert(s =~= seq![s[0]]);
    } else {
        assert(s =~= seq![s[0], s[1]]);
    }
}

/// Writing a note's name and reading it back gives a note that is the same.
pub proof fn law_name_then_parse(n: Note)
    requires
        n.valid(),
    ensures
        parse_note_name(n.name()) == n.code(),
        n.code().unwrap() < 17,
{
    lemma_parse_name_of_code(n.code().unwrap());
}

/// Moving a note up by some semitones and back down by as many gives the
/// same note (one with the same pitch class); so does moving down, then up.
pub proof fn law_up_then_down(n: Note, k: nat)
    ensures
        n.up(k).down(k).same(n),
        n.down(k).up(k).same(n),
{
    let v = n.pitch_class.value() as int;
    crate::pitch_class::lemma_of_value(n.pitch_class);
    if k % 12 != 0 {
        crate::pitch_class::lemma_value_of(v + k);
        crate::pitch_class::lemma_value_of(v - k);
        crate::pitch_class::lemma_value_of((v + k) % 12 - k);
        crate::pitch_class::lemma_value_of((v - k) % 12 + k);
        assert(((v + k) % 12 - k) % 12 == v) by (nonlinear_arith)
            requires
                0 <= v < 12,
                k >= 0,
        ;
        assert(((v - k) % 12 + k) % 12 == v) by (nonlinear_arith)
            requires
                0 <= v < 12,
                k >= 0,
        ;
        crate::pitch_class::lemma_of_value(PitchClass::of(v));
    }
}

/// The open strings of every tuning have pitch classes of at most 11.
pub proof fn lemma_tuning_roots_small(t: crate::tuning::Tuning)
    ensures
        forall|i: int| 0 <= i < 4 ==> (#[trigger] t.root_seq()[i]).pitch_class.value() < 12,
{
}

/// The literal of each of the seventeen names.
fn name_str(k: u8) -> (s: &'static str)
    requires
        k < 17,
    ensures
        s@ == name_of_code(k as nat),
{
    if k == 0 {
        proof { reveal_strlit("C"); }
        "C"
    } else if k == 1 {
        proof { reveal_strlit("C#"); }
        "C#"
    } else if k == 2 {
        proof { reveal_strlit("Db"); }
        "Db"
    } else if k == 3 {
        proof { reveal_strlit("D"); }
        "D"
    } else if k == 4 {
        proof { reveal_strlit("D#"); }
        "D#"
    } else if k == 5 {
        proof { reveal_strlit("Eb"); }
        "Eb"
    } else if k == 6 {
        proof { reveal_strlit("E"); }
        "E"
    } else if k == 7 {
        proof { reveal_strlit("F"); }
        "F"
    } else if k == 8 {
        proof { reveal_strlit("F#"); }
        "F#"
    } else if k == 9 {
        proof { reveal_strlit("Gb"); }
        "Gb"
    } else if k == 10 {
        proof { reveal_strlit("G"); }
        "G"
    } else if k == 11 {
        proof { reveal_strlit("G#"); }
        "G#"
    } else if k == 12 {
        proof { reveal_strlit("Ab"); }
        "Ab"
    } else if k == 13 {
        proof { reveal_strlit("A"); }
        "A"
    } else if k == 14 {
        proof { reveal_strlit("A#"); }
        "A#"
    } else if k == 15 {
        proof { reveal_strlit("Bb"); }
        "Bb"
    } else {
        proof { reveal_strlit("B"); }
        "B"
    }
}

/// The note that each of the seventeen names stands for.
pub fn note_from_code(k: u8) -> (n: Note)
    requires
        k < 17,
    ensures
        n.parts() == note_of_code(k as nat),
        n == Note::of_parts(note_of_code(k as nat)),
{
    let (pitch_class, staff_position) = if k == 0 {
        (PitchClass::C, StaffPosition::CPos)
    } else if k == 1 {
        (PitchClass::CSharp, StaffPosition::CPos)
    } else if k == 2 {
        (PitchClass::CSharp, StaffPosition::DPos)
    } else if k == 3 {
        (PitchClass::D, StaffPosition::DPos)
    } else if k == 4 {
        (PitchClass::DSharp, StaffPosition::DPos)
    } else if k == 5 {
        (PitchClass::DSharp, StaffPosition::EPos)
    } else if k == 6 {
        (PitchClass::E, StaffPosition::EPos)
    } else if k == 7 {
        (PitchClass::F, StaffPosition::FPos)
    } else if k == 8 {
        (PitchClass::FSharp, StaffPosition::FPos)
    } else if k == 9 {
        (PitchClass::FSharp, StaffPosition::GPos)
    } else if k == 10 {
        (PitchClass::G, StaffPosition::GPos)
    } else if k == 11 {
        (PitchClass::GSharp, StaffPosition::GPos)
    } else if k == 12 {
        (PitchClass::GSharp, StaffPosition::APos)
    } else if k == 13 {
        (PitchClass::A, StaffPosition::APos)
    } else if k == 14 {
        (PitchClass::ASharp, StaffPosition::APos)
    } else if k == 15 {
        (PitchClass::ASharp, StaffPosition::BPos)
    } else {
        (PitchClass::B, StaffPosition::BPos)
    };
    Note { pitch_class, staff_position }
}

/// Recognise one of the seventeen note names in a sequence of characters.
pub fn note_code_of_chars(cs: &Vec<char>) -> (k: Option<u8>)
    ensures
        match k {
            Some(k) => parse_note_name(cs@) == Some(k as nat) && k < 17,
            None => parse_note_name(cs@) is None,
        },
{
    if cs.len() == 1 {
        let a = cs[0];
        if a == 'C' {
            Some(0)
        } else if a == 'D' {
            Some(3)
        } else if a == 'E' {
            Some(6)
        } else if a == 'F' {
            Some(7)
        } else if a == 'G' {
            Some(10)
        } else if a == 'A' {
            Some(13)
        } else if a == 'B' {
            Some(16)
        } else {
            None
        }
    } else if cs.len() == 2 {
        let a = cs[0];
        let b = cs[1];
        if a == 'C' && b == '#' {
            Some(1)
        } else if a == 'D' && b == 'b' {
            Some(2)
        } else if a == 'D' && b == '#' {
            Some(4)
        } else if a == 'E' && b == 'b' {
            Some(5)
        } else if a == 'F' && b == '#' {
            Some(8)
        } else if a == 'G' && b == 'b' {
            Some(9)
        } else if a == 'G' && b == '#' {
            Some(11)
        } else if a == 'A' && b == 'b' {
            Some(12)
        } else if a == 'A' && b == '#' {
            Some(14)
        } else if a == 'B' && b == 'b' {
            Some(15)
        } else {
            None
        }
    } else {
        None
    }
}

} // verus!
