//! Chord shapes: fret patterns that, moved along the fretboard, play a chord
//! type from different roots.

use vstd::prelude::*;

use crate::chord_type::ChordType;
use crate::fret_pattern::FretPattern;
use crate::note::{note_of_code, parse_note_name, Note};
use crate::pitch_class::PitchClass;
use crate::staff_position::StaffPosition;
use crate::interval::Interval;
use crate::tuning::{c_tuning_strings, Tuning};
use crate::{FretID, Semitones, STRING_COUNT};

verus! {

/// The note with the given pitch class and staff position.
pub open spec fn note_at(pitch_class: PitchClass, staff_position: StaffPosition) -> Note {
    Note { pitch_class, staff_position }
}

/// The chord shapes for a chord type: the root of the chord each shape plays
/// where it is, and its frets. Chord types without shapes have none.
pub open spec fn shape_table(chord_type: ChordType) -> Seq<(Note, Seq<FretID>)> {
    match chord_type {
        ChordType::Major => seq![
            (note_at(PitchClass::C, StaffPosition::CPos), seq![0u8, 0u8, 0u8, 3u8]),
            (note_at(PitchClass::A, StaffPosition::APos), seq![2u8, 1u8, 0u8, 0u8]),
            (note_at(PitchClass::G, StaffPosition::GPos), seq![0u8, 2u8, 3u8, 2u8]),
            (note_at(PitchClass::F, StaffPosition::FPos), seq![2u8, 0u8, 1u8, 0u8]),
            (note_at(PitchClass::D, StaffPosition::DPos), seq![2u8, 2u8, 2u8, 0u8]),
        ],
        ChordType::Minor => seq![
            (note_at(PitchClass::C, StaffPosition::CPos), seq![0u8, 3u8, 3u8, 3u8]),
            (note_at(PitchClass::A, StaffPosition::APos), seq![2u8, 0u8, 0u8, 0u8]),
            (note_at(PitchClass::G, StaffPosition::GPos), seq![0u8, 2u8, 3u8, 1u8]),
            (note_at(PitchClass::F, StaffPosition::FPos), seq![1u8, 0u8, 1u8, 3u8]),
            (note_at(PitchClass::D, StaffPosition::DPos), seq![2u8, 2u8, 1u8, 0u8]),
        ],
        ChordType::SuspendedSecond => seq![
            (note_at(PitchClass::C, StaffPosition::CPos), seq![0u8, 2u8, 3u8, 3u8]),
            (note_at(PitchClass::ASharp, StaffPosition::APos), seq![3u8, 0u8, 1u8, 1u8]),
            (note_at(PitchClass::G, StaffPosition::GPos), seq![0u8, 2u8, 3u8, 0u8]),
            (note_at(PitchClass::F, StaffPosition::FPos), seq![0u8, 0u8, 1u8, 3u8]),
            (note_at(PitchClass::D, StaffPosition::DPos), seq![2u8, 2u8, 0u8, 0u8]),
        ],
        ChordType::SuspendedFourth => seq![
            (note_at(PitchClass::C, StaffPosition::CPos), seq![0u8, 0u8, 1u8, 3u8]),
            (note_at(PitchClass::A, StaffPosition::APos), seq![2u8, 2u8, 0u8, 0u8]),
            (note_at(PitchClass::G, StaffPosition::GPos), seq![0u8, 2u8, 3u8, 3u8]),
            (note_at(PitchClass::F, StaffPosition::FPos), seq![3u8, 0u8, 1u8, 1u8]),
            (note_at(PitchClass::D, StaffPosition::DPos), seq![0u8, 2u8, 3u8, 0u8]),
        ],
        ChordType::Augmented => seq![
            (note_at(PitchClass::C, StaffPosition::CPos), seq![1u8, 0u8, 0u8, 3u8]),
            (note_at(PitchClass::A, StaffPosition::APos), seq![2u8, 1u8, 1u8, 0u8]),
            (note_at(PitchClass::GSharp, StaffPosition::GPos), seq![1u8, 0u8, 0u8, 3u8]),
            (note_at(PitchClass::F, StaffPosition::FPos), seq![2u8, 1u8, 1u8, 0u8]),
            (note_at(PitchClass::E, StaffPosition::EPos), seq![1u8, 0u8, 0u8, 3u8]),
            (note_at(PitchClass::CSharp, StaffPosition::CPos), seq![2u8, 1u8, 1u8, 0u8]),
        ],
        ChordType::Diminished => seq![
            (note_at(PitchClass::D, StaffPosition::DPos), seq![7u8, 5u8, 4u8, 5u8]),
            (note_at(PitchClass::ASharp, StaffPosition::APos), seq![3u8, 1u8, 0u8, 1u8]),
            (note_at(PitchClass::G, StaffPosition::GPos), seq![0u8, 1u8, 3u8, 1u8]),
            (note_at(PitchClass::FSharp, StaffPosition::FPos), seq![2u8, 0u8, 2u8, 0u8]),
            (note_at(PitchClass::DSharp, StaffPosition::DPos), seq![2u8, 3u8, 2u8, 0u8]),
        ],
        ChordType::DominantSeventh => seq![
            (note_at(PitchClass::C, StaffPosition::CPos), seq![0u8, 0u8, 0u8, 1u8]),
            (note_at(PitchClass::A, StaffPosition::APos), seq![0u8, 1u8, 0u8, 0u8]),
            (note_at(PitchClass::G, StaffPosition::GPos), seq![0u8, 2u8, 1u8, 2u8]),
            (note_at(PitchClass::E, StaffPosition::EPos), seq![1u8, 2u8, 0u8, 2u8]),
        ],
        ChordType::MinorSeventh => seq![
            (note_at(PitchClass::CSharp, StaffPosition::CPos), seq![1u8, 1u8, 0u8, 2u8]),
            (note_at(PitchClass::A, StaffPosition::APos), seq![0u8, 0u8, 0u8, 0u8]),
            (note_at(PitchClass::G, StaffPosition::GPos), seq![0u8, 2u8, 1u8, 1u8]),
            (note_at(PitchClass::E, StaffPosition::EPos), seq![0u8, 2u8, 0u8, 2u8]),
        ],
        ChordType::MajorSeventh => seq![
            (note_at(PitchClass::C, StaffPosition::CPos), seq![0u8, 0u8, 0u8, 2u8]),
            (note_at(PitchClass::ASharp, StaffPosition::APos), seq![3u8, 2u8, 1u8, 0u8]),
            (note_at(PitchClass::A, StaffPosition::APos), seq![1u8, 1u8, 0u8, 0u8]),
            (note_at(PitchClass::G, StaffPosition::GPos), seq![0u8, 2u8, 2u8, 2u8]),
            (note_at(PitchClass::E, StaffPosition::EPos), seq![1u8, 3u8, 0u8, 2u8]),
        ],
        ChordType::MinorMajorSeventh => seq![
            (note_at(PitchClass::CSharp, StaffPosition::CPos), seq![1u8, 1u8, 0u8, 3u8]),
            (note_at(PitchClass::ASharp, StaffPosition::APos), seq![3u8, 1u8, 1u8, 0u8]),
            (note_at(PitchClass::A, StaffPosition::APos), seq![1u8, 0u8, 0u8, 0u8]),
            (note_at(PitchClass::G, StaffPosition::GPos), seq![0u8, 2u8, 2u8, 1u8]),
            (note_at(PitchClass::E, StaffPosition::EPos), seq![0u8, 3u8, 0u8, 2u8]),
        ],
        ChordType::AugmentedSeventh => seq![
            (note_at(PitchClass::C, StaffPosition::CPos), seq![1u8, 0u8, 0u8, 1u8]),
            (note_at(PitchClass::A, StaffPosition::APos), seq![0u8, 1u8, 1u8, 0u8]),
            (note_at(PitchClass::G, StaffPosition::GPos), seq![0u8, 3u8, 1u8, 2u8]),
            (note_at(PitchClass::E, StaffPosition::EPos), seq![1u8, 2u8, 0u8, 3u8]),
        ],
        ChordType::AugmentedMajorSeventh => seq![
            (note_at(PitchClass::C, StaffPosition::CPos), seq![1u8, 0u8, 0u8, 2u8]),
            (note_at(PitchClass::ASharp, StaffPosition::APos), seq![3u8, 2u8, 2u8, 0u8]),
            (note_at(PitchClass::A, StaffPosition::APos), seq![1u8, 1u8, 1u8, 0u8]),
            (note_at(PitchClass::G, StaffPosition::GPos), seq![0u8, 3u8, 2u8, 2u8]),
            (note_at(PitchClass::E, StaffPosition::EPos), seq![1u8, 3u8, 0u8, 3u8]),
        ],
        ChordType::DiminishedSeventh => seq![
            (note_at(PitchClass::CSharp, StaffPosition::CPos), seq![0u8, 1u8, 0u8, 1u8]),
            (note_at(PitchClass::ASharp, StaffPosition::APos), seq![0u8, 1u8, 0u8, 1u8]),
            (note_at(PitchClass::G, StaffPosition::GPos), seq![0u8, 1u8, 0u8, 1u8]),
            (note_at(PitchClass::E, StaffPosition::EPos), seq![0u8, 1u8, 0u8, 1u8]),
        ],
        ChordType::HalfDiminishedSeventh => seq![
            (note_at(PitchClass::CSharp, StaffPosition::CPos), seq![0u8, 1u8, 0u8, 2u8]),
            (note_at(PitchClass::ASharp, StaffPosition::APos), seq![1u8, 1u8, 0u8, 1u8]),
            (note_at(PitchClass::G, StaffPosition::GPos), seq![0u8, 1u8, 1u8, 1u8]),
            (note_at(PitchClass::E, StaffPosition::EPos), seq![0u8, 2u8, 0u8, 1u8]),
        ],
        _ => Seq::empty(),
    }
}

/// The pitch class (by its number) that sounds on string `i` of a ukulele in
/// C tuning when fret `frets[i]` is pressed.
#[verifier::opaque]
pub open spec fn c_tuning_pitch(frets: Seq<FretID>, i: int) -> nat {
    ((c_tuning_strings()[i].pitch_class.value() + frets[i]) % 12) as nat
}

/// The pitch class (by its number) of the note `interval` above `root`.
#[verifier::opaque]
pub open spec fn chord_pitch(root: Note, interval: Interval) -> nat {
    (root.pitch_class.value() + interval.semitones()) % 12
}

/// The frets, played in C tuning, sound exactly the pitch classes of the notes
/// `intervals` above `root`: each string sounds one of them and each of them
/// sounds on a string.
pub open spec fn sounds_notes(frets: Seq<FretID>, root: Note, intervals: Seq<Interval>) -> bool {
    &&& forall|i: int|
        0 <= i < STRING_COUNT ==> exists|k: int|
            #![trigger intervals[k]]
            0 <= k < intervals.len() && #[trigger] c_tuning_pitch(frets, i) == chord_pitch(root, intervals[k])
    &&& forall|k: int|
        0 <= k < intervals.len() ==> exists|i: int|
            #![trigger c_tuning_pitch(frets, i)]
            0 <= i < STRING_COUNT && c_tuning_pitch(frets, i) == chord_pitch(root, #[trigger] intervals[k])
}

/// The frets, played in C tuning, sound exactly the pitch classes of the chord
/// of type `ct` on `root`.
pub open spec fn sounds_chord(frets: Seq<FretID>, root: Note, ct: ChordType) -> bool {
    sounds_notes(frets, root, ct.interval_seq())
}

/// `sounds_notes` from a note for each string (`a0` to `a3`, by their place
/// among the intervals) and a string for each note (`b0` to `b3`).
proof fn lemma_sounds_notes_by(
    frets: Seq<FretID>,
    root: Note,
    ivs: Seq<Interval>,
    a0: int,
    a1: int,
    a2: int,
    a3: int,
    b0: int,
    b1: int,
    b2: int,
    b3: int,
)
    requires
        ivs.len() <= 4,
        0 <= a0 < ivs.len() && c_tuning_pitch(frets, 0) == chord_pitch(root, ivs[a0]),
        0 <= a1 < ivs.len() && c_tuning_pitch(frets, 1) == chord_pitch(root, ivs[a1]),
        0 <= a2 < ivs.len() && c_tuning_pitch(frets, 2) == chord_pitch(root, ivs[a2]),
        0 <= a3 < ivs.len() && c_tuning_pitch(frets, 3) == chord_pitch(root, ivs[a3]),
        0 < ivs.len() ==> 0 <= b0 < 4 && c_tuning_pitch(frets, b0) == chord_pitch(root, ivs[0]),
        1 < ivs.len() ==> 0 <= b1 < 4 && c_tuning_pitch(frets, b1) == chord_pitch(root, ivs[1]),
        2 < ivs.len() ==> 0 <= b2 < 4 && c_tuning_pitch(frets, b2) == chord_pitch(root, ivs[2]),
        3 < ivs.len() ==> 0 <= b3 < 4 && c_tuning_pitch(frets, b3) == chord_pitch(root, ivs[3]),
    ensures
        sounds_notes(frets, root, ivs),
{
    assert forall|i: int| 0 <= i < STRING_COUNT implies exists|k: int|
        #![trigger ivs[k]]
        0 <= k < ivs.len() && #[trigger] c_tuning_pitch(frets, i) == chord_pitch(root, ivs[k]) by {
        if i == 0 {
            assert(c_tuning_pitch(frets, 0) == chord_pitch(root, ivs[a0]));
        } else if i == 1 {
            assert(c_tuning_pitch(frets, 1) == chord_pitch(root, ivs[a1]));
        } else if i == 2 {
            assert(c_tuning_pitch(frets, 2) == chord_pitch(root, ivs[a2]));
        } else {
            assert(c_tuning_pitch(frets, 3) == chord_pitch(root, ivs[a3]));
        }
    }
    assert forall|k: int| 0 <= k < ivs.len() implies exists|i: int|
        #![trigger c_tuning_pitch(frets, i)]
        0 <= i < STRING_COUNT && c_tuning_pitch(frets, i) == chord_pitch(root, #[trigger] ivs[k]) by {
        if k == 0 {
            assert(c_tuning_pitch(frets, b0) == chord_pitch(root, ivs[0]));
        } else if k == 1 {
            assert(c_tuning_pitch(frets, b1) == chord_pitch(root, ivs[1]));
        } else if k == 2 {
            assert(c_tuning_pitch(frets, b2) == chord_pitch(root, ivs[2]));
        } else {
            assert(c_tuning_pitch(frets, b3) == chord_pitch(root, ivs[3]));
        }
    }
}

/// Each shape for the chord type sounds its chord.
#[verifier::spinoff_prover]
proof fn lemma_major_shapes_sound(j: int)
    requires
        0 <= j < shape_table(ChordType::Major).len(),
    ensures
        sounds_chord(shape_table(ChordType::Major)[j].1, shape_table(ChordType::Major)[j].0, ChordType::Major),
{
    reveal(c_tuning_pitch);
    reveal(chord_pitch);
    let t = shape_table(ChordType::Major);
    if j == 0 {
        lemma_sounds_notes_by(t[0].1, t[0].0, ChordType::Major.interval_seq(), 2, 0, 1, 0, 1, 2, 0, 0);
    } else if j == 1 {
        lemma_sounds_notes_by(t[1].1, t[1].0, ChordType::Major.interval_seq(), 0, 1, 2, 0, 0, 1, 2, 0);
    } else if j == 2 {
        lemma_sounds_notes_by(t[2].1, t[2].0, ChordType::Major.interval_seq(), 0, 2, 0, 1, 0, 3, 1, 0);
    } else if j == 3 {
        lemma_sounds_notes_by(t[3].1, t[3].0, ChordType::Major.interval_seq(), 1, 2, 0, 1, 2, 0, 1, 0);
    } else if j == 4 {
        lemma_sounds_notes_by(t[4].1, t[4].0, ChordType::Major.interval_seq(), 2, 0, 1, 2, 1, 2, 0, 0);
    }
}

/// Each shape for the chord type sounds its chord.
#[verifier::spinoff_prover]
proof fn lemma_minor_shapes_sound(j: int)
    requires
        0 <= j < shape_table(ChordType::Minor).len(),
    ensures
        sounds_chord(shape_table(ChordType::Minor)[j].1, shape_table(ChordType::Minor)[j].0, ChordType::Minor),
{
    reveal(c_tuning_pitch);
    reveal(chord_pitch);
    let t = shape_table(ChordType::Minor);
    if j == 0 {
        lemma_sounds_notes_by(t[0].1, t[0].0, ChordType::Minor.interval_seq(), 2, 1, 2, 0, 3, 1, 0, 0);
    } else if j == 1 {
        lemma_sounds_notes_by(t[1].1, t[1].0, ChordType::Minor.interval_seq(), 0, 1, 2, 0, 0, 1, 2, 0);
    } else if j == 2 {
        lemma_sounds_notes_by(t[2].1, t[2].0, ChordType::Minor.interval_seq(), 0, 2, 0, 1, 0, 3, 1, 0);
    } else if j == 3 {
        lemma_sounds_notes_by(t[3].1, t[3].0, ChordType::Minor.interval_seq(), 1, 2, 0, 2, 2, 0, 1, 0);
    } else if j == 4 {
        lemma_sounds_notes_by(t[4].1, t[4].0, ChordType::Minor.interval_seq(), 2, 0, 1, 2, 1, 2, 0, 0);
    }
}

/// Each shape for the chord type sounds its chord.
#[verifier::spinoff_prover]
proof fn lemma_suspended_second_shapes_sound(j: int)
    requires
        0 <= j < shape_table(ChordType::SuspendedSecond).len(),
    ensures
        sounds_chord(shape_table(ChordType::SuspendedSecond)[j].1, shape_table(ChordType::SuspendedSecond)[j].0, ChordType::SuspendedSecond),
{
    reveal(c_tuning_pitch);
    reveal(chord_pitch);
    let t = shape_table(ChordType::SuspendedSecond);
    if j == 0 {
        lemma_sounds_notes_by(t[0].1, t[0].0, ChordType::SuspendedSecond.interval_seq(), 2, 1, 2, 0, 3, 1, 0, 0);
    } else if j == 1 {
        lemma_sounds_notes_by(t[1].1, t[1].0, ChordType::SuspendedSecond.interval_seq(), 0, 1, 2, 0, 0, 1, 2, 0);
    } else if j == 2 {
        lemma_sounds_notes_by(t[2].1, t[2].0, ChordType::SuspendedSecond.interval_seq(), 0, 2, 0, 1, 0, 3, 1, 0);
    } else if j == 3 {
        lemma_sounds_notes_by(t[3].1, t[3].0, ChordType::SuspendedSecond.interval_seq(), 1, 2, 0, 2, 2, 0, 1, 0);
    } else if j == 4 {
        lemma_sounds_notes_by(t[4].1, t[4].0, ChordType::SuspendedSecond.interval_seq(), 2, 0, 1, 2, 1, 2, 0, 0);
    }
}

/// Each shape for the chord type sounds its chord.
#[verifier::spinoff_prover]
proof fn lemma_suspended_fourth_shapes_sound(j: int)
    requires
        0 <= j < shape_table(ChordType::SuspendedFourth).len(),
    ensures
        sounds_chord(shape_table(ChordType::SuspendedFourth)[j].1, shape_table(ChordType::SuspendedFourth)[j].0, ChordType::SuspendedFourth),
{
    reveal(c_tuning_pitch);
    reveal(chord_pitch);
    let t = shape_table(ChordType::SuspendedFourth);
    if j == 0 {
        lemma_sounds_notes_by(t[0].1, t[0].0, ChordType::SuspendedFourth.interval_seq(), 2, 0, 1, 0, 1, 2, 0, 0);
    } else if j == 1 {
        lemma_sounds_notes_by(t[1].1, t[1].0, ChordType::SuspendedFourth.interval_seq(), 0, 1, 2, 0, 0, 1, 2, 0);
    } else if j == 2 {
        lemma_sounds_notes_by(t[2].1, t[2].0, ChordType::SuspendedFourth.interval_seq(), 0, 2, 0, 1, 0, 3, 1, 0);
    } else if j == 3 {
        lemma_sounds_notes_by(t[3].1, t[3].0, ChordType::SuspendedFourth.interval_seq(), 1, 2, 0, 1, 2, 0, 1, 0);
    } else if j == 4 {
        lemma_sounds_notes_by(t[4].1, t[4].0, ChordType::SuspendedFourth.interval_seq(), 1, 0, 1, 2, 1, 0, 3, 0);
    }
}

/// Each shape for the chord type sounds its chord.
#[verifier::spinoff_prover]
proof fn lemma_augmented_shapes_sound(j: int)
    requires
        0 <= j < shape_table(ChordType::Augmented).len(),
    ensures
        sounds_chord(shape_table(ChordType::Augmented)[j].1, shape_table(ChordType::Augmented)[j].0, ChordType::Augmented),
{
    reveal(c_tuning_pitch);
    reveal(chord_pitch);
    let t = shape_table(ChordType::Augmented);
    if j == 0 {
        lemma_sounds_notes_by(t[0].1, t[0].0, ChordType::Augmented.interval_seq(), 2, 0, 1, 0, 1, 2, 0, 0);
    } else if j == 1 {
        lemma_sounds_notes_by(t[1].1, t[1].0, ChordType::Augmented.interval_seq(), 0, 1, 2, 0, 0, 1, 2, 0);
    } else if j == 2 {
        lemma_sounds_notes_by(t[2].1, t[2].0, ChordType::Augmented.interval_seq(), 0, 1, 2, 1, 0, 1, 2, 0);
    } else if j == 3 {
        lemma_sounds_notes_by(t[3].1, t[3].0, ChordType::Augmented.interval_seq(), 1, 2, 0, 1, 2, 0, 1, 0);
    } else if j == 4 {
        lemma_sounds_notes_by(t[4].1, t[4].0, ChordType::Augmented.interval_seq(), 1, 2, 0, 2, 2, 0, 1, 0);
    } else if j == 5 {
        lemma_sounds_notes_by(t[5].1, t[5].0, ChordType::Augmented.interval_seq(), 2, 0, 1, 2, 1, 2, 0, 0);
    }
}

/// Each shape for the chord type sounds its chord.
#[verifier::spinoff_prover]
proof fn lemma_diminished_shapes_sound(j: int)
    requires
        0 <= j < shape_table(ChordType::Diminished).len(),
    ensures
        sounds_chord(shape_table(ChordType::Diminished)[j].1, shape_table(ChordType::Diminished)[j].0, ChordType::Diminished),
{
    reveal(c_tuning_pitch);
    reveal(chord_pitch);
    let t = shape_table(ChordType::Diminished);
    if j == 0 {
        lemma_sounds_notes_by(t[0].1, t[0].0, ChordType::Diminished.interval_seq(), 0, 1, 2, 0, 0, 1, 2, 0);
    } else if j == 1 {
        lemma_sounds_notes_by(t[1].1, t[1].0, ChordType::Diminished.interval_seq(), 0, 1, 2, 0, 0, 1, 2, 0);
    } else if j == 2 {
        lemma_sounds_notes_by(t[2].1, t[2].0, ChordType::Diminished.interval_seq(), 0, 2, 0, 1, 0, 3, 1, 0);
    } else if j == 3 {
        lemma_sounds_notes_by(t[3].1, t[3].0, ChordType::Diminished.interval_seq(), 1, 2, 0, 1, 2, 0, 1, 0);
    } else if j == 4 {
        lemma_sounds_notes_by(t[4].1, t[4].0, ChordType::Diminished.interval_seq(), 2, 0, 1, 2, 1, 2, 0, 0);
    }
}

/// Each shape for the chord type sounds its chord.
#[verifier::spinoff_prover]
proof fn lemma_dominant_seventh_shapes_sound(j: int)
    requires
        0 <= j < shape_table(ChordType::DominantSeventh).len(),
    ensures
        sounds_chord(shape_table(ChordType::DominantSeventh)[j].1, shape_table(ChordType::DominantSeventh)[j].0, ChordType::DominantSeventh),
{
    reveal(c_tuning_pitch);
    reveal(chord_pitch);
    let t = shape_table(ChordType::DominantSeventh);
    if j == 0 {
        lemma_sounds_notes_by(t[0].1, t[0].0, ChordType::DominantSeventh.interval_seq(), 2, 0, 1, 3, 1, 2, 0, 3);
    } else if j == 1 {
        lemma_sounds_notes_by(t[1].1, t[1].0, ChordType::DominantSeventh.interval_seq(), 3, 1, 2, 0, 3, 1, 2, 0);
    } else if j == 2 {
        lemma_sounds_notes_by(t[2].1, t[2].0, ChordType::DominantSeventh.interval_seq(), 0, 2, 3, 1, 0, 3, 1, 2);
    } else if j == 3 {
        lemma_sounds_notes_by(t[3].1, t[3].0, ChordType::DominantSeventh.interval_seq(), 1, 3, 0, 2, 2, 0, 3, 1);
    }
}

/// Each shape for the chord type sounds its chord.
#[verifier::spinoff_prover]
proof fn lemma_minor_seventh_shapes_sound(j: int)
    requires
        0 <= j < shape_table(ChordType::MinorSeventh).len(),
    ensures
        sounds_chord(shape_table(ChordType::MinorSeventh)[j].1, shape_table(ChordType::MinorSeventh)[j].0, ChordType::MinorSeventh),
{
    reveal(c_tuning_pitch);
    reveal(chord_pitch);
    let t = shape_table(ChordType::MinorSeventh);
    if j == 0 {
        lemma_sounds_notes_by(t[0].1, t[0].0, ChordType::MinorSeventh.interval_seq(), 2, 0, 1, 3, 1, 2, 0, 3);
    } else if j == 1 {
        lemma_sounds_notes_by(t[1].1, t[1].0, ChordType::MinorSeventh.interval_seq(), 3, 1, 2, 0, 3, 1, 2, 0);
    } else if j == 2 {
        lemma_sounds_notes_by(t[2].1, t[2].0, ChordType::MinorSeventh.interval_seq(), 0, 2, 3, 1, 0, 3, 1, 2);
    } else if j == 3 {
        lemma_sounds_notes_by(t[3].1, t[3].0, ChordType::MinorSeventh.interval_seq(), 1, 3, 0, 2, 2, 0, 3, 1);
    }
}

/// Each shape for the chord type sounds its chord.
#[verifier::spinoff_prover]
proof fn lemma_major_seventh_shapes_sound(j: int)
    requires
        0 <= j < shape_table(ChordType::MajorSeventh).len(),
    ensures
        sounds_chord(shape_table(ChordType::MajorSeventh)[j].1, shape_table(ChordType::MajorSeventh)[j].0, ChordType::MajorSeventh),
{
    reveal(c_tuning_pitch);
    reveal(chord_pitch);
    let t = shape_table(ChordType::MajorSeventh);
    if j == 0 {
        lemma_sounds_notes_by(t[0].1, t[0].0, ChordType::MajorSeventh.interval_seq(), 2, 0, 1, 3, 1, 2, 0, 3);
    } else if j == 1 {
        lemma_sounds_notes_by(t[1].1, t[1].0, ChordType::MajorSeventh.interval_seq(), 0, 1, 2, 3, 0, 1, 2, 3);
    } else if j == 2 {
        lemma_sounds_notes_by(t[2].1, t[2].0, ChordType::MajorSeventh.interval_seq(), 3, 1, 2, 0, 3, 1, 2, 0);
    } else if j == 3 {
        lemma_sounds_notes_by(t[3].1, t[3].0, ChordType::MajorSeventh.interval_seq(), 0, 2, 3, 1, 0, 3, 1, 2);
    } else if j == 4 {
        lemma_sounds_notes_by(t[4].1, t[4].0, ChordType::MajorSeventh.interval_seq(), 1, 3, 0, 2, 2, 0, 3, 1);
    }
}

/// Each shape for the chord type sounds its chord.
#[verifier::spinoff_prover]
proof fn lemma_minor_major_seventh_shapes_sound(j: int)
    requires
        0 <= j < shape_table(ChordType::MinorMajorSeventh).len(),
    ensures
        sounds_chord(shape_table(ChordType::MinorMajorSeventh)[j].1, shape_table(ChordType::MinorMajorSeventh)[j].0, ChordType::MinorMajorSeventh),
{
    reveal(c_tuning_pitch);
    reveal(chord_pitch);
    let t = shape_table(ChordType::MinorMajorSeventh);
    if j == 0 {
        lemma_sounds_notes_by(t[0].1, t[0].0, ChordType::MinorMajorSeventh.interval_seq(), 2, 0, 1, 3, 1, 2, 0, 3);
    } else if j == 1 {
        lemma_sounds_notes_by(t[1].1, t[1].0, ChordType::MinorMajorSeventh.interval_seq(), 0, 1, 2, 3, 0, 1, 2, 3);
    } else if j == 2 {
        lemma_sounds_notes_by(t[2].1, t[2].0, ChordType::MinorMajorSeventh.interval_seq(), 3, 1, 2, 0, 3, 1, 2, 0);
    } else if j == 3 {
        lemma_sounds_notes_by(t[3].1, t[3].0, ChordType::MinorMajorSeventh.interval_seq(), 0, 2, 3, 1, 0, 3, 1, 2);
    } else if j == 4 {
        lemma_sounds_notes_by(t[4].1, t[4].0, ChordType::MinorMajorSeventh.interval_seq(), 1, 3, 0, 2, 2, 0, 3, 1);
    }
}

/// Each shape for the chord type sounds its chord.
#[verifier::spinoff_prover]
proof fn lemma_augmented_seventh_shapes_sound(j: int)
    requires
        0 <= j < shape_table(ChordType::AugmentedSeventh).len(),
    ensures
        sounds_chord(shape_table(ChordType::AugmentedSeventh)[j].1, shape_table(ChordType::AugmentedSeventh)[j].0, ChordType::AugmentedSeventh),
{
    reveal(c_tuning_pitch);
    reveal(chord_pitch);
    let t = shape_table(ChordType::AugmentedSeventh);
    if j == 0 {
        lemma_sounds_notes_by(t[0].1, t[0].0, ChordType::AugmentedSeventh.interval_seq(), 2, 0, 1, 3, 1, 2, 0, 3);
    } else if j == 1 {
        lemma_sounds_notes_by(t[1].1, t[1].0, ChordType::AugmentedSeventh.interval_seq(), 3, 1, 2, 0, 3, 1, 2, 0);
    } else if j == 2 {
        lemma_sounds_notes_by(t[2].1, t[2].0, ChordType::AugmentedSeventh.interval_seq(), 0, 2, 3, 1, 0, 3, 1, 2);
    } else if j == 3 {
        lemma_sounds_notes_by(t[3].1, t[3].0, ChordType::AugmentedSeventh.interval_seq(), 1, 3, 0, 2, 2, 0, 3, 1);
    }
}

/// Each shape for the chord type sounds its chord.
#[verifier::spinoff_prover]
proof fn lemma_augmented_major_seventh_shapes_sound(j: int)
    requires
        0 <= j < shape_table(ChordType::AugmentedMajorSeventh).len(),
    ensures
        sounds_chord(shape_table(ChordType::AugmentedMajorSeventh)[j].1, shape_table(ChordType::AugmentedMajorSeventh)[j].0, ChordType::AugmentedMajorSeventh),
{
    reveal(c_tuning_pitch);
    reveal(chord_pitch);
    let t = shape_table(ChordType::AugmentedMajorSeventh);
    if j == 0 {
        lemma_sounds_notes_by(t[0].1, t[0].0, ChordType::AugmentedMajorSeventh.interval_seq(), 2, 0, 1, 3, 1, 2, 0, 3);
    } else if j == 1 {
        lemma_sounds_notes_by(t[1].1, t[1].0, ChordType::AugmentedMajorSeventh.interval_seq(), 0, 1, 2, 3, 0, 1, 2, 3);
    } else if j == 2 {
        lemma_sounds_notes_by(t[2].1, t[2].0, ChordType::AugmentedMajorSeventh.interval_seq(), 3, 1, 2, 0, 3, 1, 2, 0);
    } else if j == 3 {
        lemma_sounds_notes_by(t[3].1, t[3].0, ChordType::AugmentedMajorSeventh.interval_seq(), 0, 2, 3, 1, 0, 3, 1, 2);
    } else if j == 4 {
        lemma_sounds_notes_by(t[4].1, t[4].0, ChordType::AugmentedMajorSeventh.interval_seq(), 1, 3, 0, 2, 2, 0, 3, 1);
    }
}

/// Each shape for the chord type sounds its chord.
#[verifier::spinoff_prover]
proof fn lemma_diminished_seventh_shapes_sound(j: int)
    requires
        0 <= j < shape_table(ChordType::DiminishedSeventh).len(),
    ensures
        sounds_chord(shape_table(ChordType::DiminishedSeventh)[j].1, shape_table(ChordType::DiminishedSeventh)[j].0, ChordType::DiminishedSeventh),
{
    reveal(c_tuning_pitch);
    reveal(chord_pitch);
    let t = shape_table(ChordType::DiminishedSeventh);
    if j == 0 {
        lemma_sounds_notes_by(t[0].1, t[0].0, ChordType::DiminishedSeventh.interval_seq(), 2, 0, 1, 3, 1, 2, 0, 3);
    } else if j == 1 {
        lemma_sounds_notes_by(t[1].1, t[1].0, ChordType::DiminishedSeventh.interval_seq(), 3, 1, 2, 0, 3, 1, 2, 0);
    } else if j == 2 {
        lemma_sounds_notes_by(t[2].1, t[2].0, ChordType::DiminishedSeventh.interval_seq(), 0, 2, 3, 1, 0, 3, 1, 2);
    } else if j == 3 {
        lemma_sounds_notes_by(t[3].1, t[3].0, ChordType::DiminishedSeventh.interval_seq(), 1, 3, 0, 2, 2, 0, 3, 1);
    }
}

/// Each shape for the chord type sounds its chord.
#[verifier::spinoff_prover]
proof fn lemma_half_diminished_seventh_shapes_sound(j: int)
    requires
        0 <= j < shape_table(ChordType::HalfDiminishedSeventh).len(),
    ensures
        sounds_chord(shape_table(ChordType::HalfDiminishedSeventh)[j].1, shape_table(ChordType::HalfDiminishedSeventh)[j].0, ChordType::HalfDiminishedSeventh),
{
    reveal(c_tuning_pitch);
    reveal(chord_pitch);
    let t = shape_table(ChordType::HalfDiminishedSeventh);
    if j == 0 {
        lemma_sounds_notes_by(t[0].1, t[0].0, ChordType::HalfDiminishedSeventh.interval_seq(), 2, 0, 1, 3, 1, 2, 0, 3);
    } else if j == 1 {
        lemma_sounds_notes_by(t[1].1, t[1].0, ChordType::HalfDiminishedSeventh.interval_seq(), 3, 1, 2, 0, 3, 1, 2, 0);
    } else if j == 2 {
        lemma_sounds_notes_by(t[2].1, t[2].0, ChordType::HalfDiminishedSeventh.interval_seq(), 0, 2, 3, 1, 0, 3, 1, 2);
    } else if j == 3 {
        lemma_sounds_notes_by(t[3].1, t[3].0, ChordType::HalfDiminishedSeventh.interval_seq(), 1, 3, 0, 2, 2, 0, 3, 1);
    }
}

/// Each chord shape, played where it is in C tuning, sounds exactly the pitch
/// classes of the chord of its type on its root: moved along the fretboard it
/// plays that chord type from other roots.
pub proof fn law_shapes_sound_chord(ct: ChordType, j: int)
    requires
        0 <= j < shape_table(ct).len(),
    ensures
        sounds_chord(shape_table(ct)[j].1, shape_table(ct)[j].0, ct),
{
    match ct {
        ChordType::Major => lemma_major_shapes_sound(j),
        ChordType::Minor => lemma_minor_shapes_sound(j),
        ChordType::SuspendedSecond => lemma_suspended_second_shapes_sound(j),
        ChordType::SuspendedFourth => lemma_suspended_fourth_shapes_sound(j),
        ChordType::Augmented => lemma_augmented_shapes_sound(j),
        ChordType::Diminished => lemma_diminished_shapes_sound(j),
        ChordType::DominantSeventh => lemma_dominant_seventh_shapes_sound(j),
        ChordType::MinorSeventh => lemma_minor_seventh_shapes_sound(j),
        ChordType::MajorSeventh => lemma_major_seventh_shapes_sound(j),
        ChordType::MinorMajorSeventh => lemma_minor_major_seventh_shapes_sound(j),
        ChordType::AugmentedSeventh => lemma_augmented_seventh_shapes_sound(j),
        ChordType::AugmentedMajorSeventh => lemma_augmented_major_seventh_shapes_sound(j),
        ChordType::DiminishedSeventh => lemma_diminished_seventh_shapes_sound(j),
        ChordType::HalfDiminishedSeventh => lemma_half_diminished_seventh_shapes_sound(j),
        _ => {},
    }
}

/// A chord shape is a configuration of frets to be pressed to play a
/// certain type of chord. The shape can be moved along the fretboard
/// to derive several chords.
#[derive(Debug, Clone, Copy)]
pub struct ChordShape {
    root: Note,
    frets: FretPattern,
}

impl ChordShape {
    /// The root of the chord that the shape plays where it is.
    pub closed spec fn root_note(self) -> Note {
        self.root
    }

    /// The frets of the shape.
    pub closed spec fn fret_seq(self) -> Seq<FretID> {
        self.frets@
    }

    /// The shape of the given frets, playing a chord whose root has the given name.
    fn new(note_name: &str, frets: [FretID; STRING_COUNT]) -> (c: ChordShape)
        requires
            parse_note_name(note_name@) is Some,
        ensures
            c.root_note().parts() == note_of_code(parse_note_name(note_name@).unwrap()),
            c.fret_seq() == frets@,
    {
        ChordShape { root: Note::from_str(note_name).unwrap(), frets: FretPattern::from_frets(frets) }
    }

    /// Apply the chord shape while moving it `n` frets forward on the fretboard.
    /// Return the resulting fret pattern.
    fn apply(self, n: Semitones) -> (p: FretPattern)
        requires
            forall|i: int| 0 <= i < STRING_COUNT ==> #[trigger] self.fret_seq()[i] + n <= u8::MAX,
        ensures
            forall|i: int| 0 <= i < STRING_COUNT ==> #[trigger] p@[i] == self.fret_seq()[i] + n,
    {
        assert forall|i: int| 0 <= i < STRING_COUNT implies #[trigger] self.frets@[i] + n <= u8::MAX by {
            assert(self.fret_seq()[i] == self.frets@[i]);
        }
        self.frets.add(n)
    }
}

/// How far a shape with root `shape_root` is to be moved to play a chord with
/// root `root` from fret `min_fret` on, in a tuning that lies `semitones`
/// above C tuning: the difference, modulo 12, between the pitch class
/// `min_fret` semitones below the root and the pitch class `semitones` above
/// the shape's root.
pub open spec fn shape_offset(root: Note, min_fret: FretID, semitones: nat, shape_root: Note) -> nat {
    ((PitchClass::of(root.pitch_class.value() - min_fret).value() - PitchClass::of(
        (shape_root.pitch_class.value() + semitones) as int,
    ).value()) % 12) as nat
}

/// The first of the first `k` offsets that is smallest.
pub open spec fn first_smallest(offsets: Seq<nat>, k: nat) -> nat
    decreases k,
{
    if k <= 1 {
        0
    } else {
        let b = first_smallest(offsets, (k - 1) as nat);
        if offsets[k - 1] < offsets[b as int] {
            (k - 1) as nat
        } else {
            b
        }
    }
}

/// The first smallest offset is no greater than any of the first `k` offsets.
proof fn lemma_first_smallest(offsets: Seq<nat>, k: nat)
    requires
        1 <= k <= offsets.len(),
    ensures
        first_smallest(offsets, k) < k,
        forall|i: int| 0 <= i < k ==> offsets[first_smallest(offsets, k) as int] <= #[trigger] offsets[i],
    decreases k,
{
    if k > 1 {
        lemma_first_smallest(offsets, (k - 1) as nat);
    }
}

/// A set of chord shapes to be used for a certain instrument -
/// in our case the ukulele.
pub struct ChordShapeSet {
    chord_shapes: Vec<ChordShape>,
}

impl ChordShapeSet {
    /// The shapes of the set: each shape's root and frets.
    pub closed spec fn shapes(self) -> Seq<(Note, Seq<FretID>)> {
        self.chord_shapes@.map_values(|c: ChordShape| (c.root_note(), c.fret_seq()))
    }

    /// The offsets by which each shape is to be moved to play a chord with root
    /// `root` from fret `min_fret` on in a tuning.
    pub open spec fn offsets(self, root: Note, min_fret: FretID, tuning: Tuning) -> Seq<nat> {
        self.shapes().map_values(|s: (Note, Seq<FretID>)| shape_offset(root, min_fret, tuning.semitones(), s.0))
    }

    /// The shapes for a chord type.
    #[verifier::rlimit(50)]
    pub fn new(chord_type: ChordType) -> (s: ChordShapeSet)
        ensures
            s.shapes() == shape_table(chord_type),
    {
        proof {
            reveal_strlit("A");
            reveal_strlit("A#");
            reveal_strlit("C");
            reveal_strlit("C#");
            reveal_strlit("D");
            reveal_strlit("D#");
            reveal_strlit("E");
            reveal_strlit("F");
            reveal_strlit("F#");
            reveal_strlit("G");
            reveal_strlit("G#");
        }
        let chord_shapes: Vec<ChordShape> = match chord_type {
            ChordType::Major => vec![
                ChordShape::new("C", [0, 0, 0, 3]),
                ChordShape::new("A", [2, 1, 0, 0]),
                ChordShape::new("G", [0, 2, 3, 2]),
                ChordShape::new("F", [2, 0, 1, 0]),
                ChordShape::new("D", [2, 2, 2, 0]),
            ],
            ChordType::Minor => vec![
                ChordShape::new("C", [0, 3, 3, 3]),
                ChordShape::new("A", [2, 0, 0, 0]),
                ChordShape::new("G", [0, 2, 3, 1]),
                ChordShape::new("F", [1, 0, 1, 3]),
                ChordShape::new("D", [2, 2, 1, 0]),
            ],
            ChordType::SuspendedSecond => vec![
                ChordShape::new("C", [0, 2, 3, 3]),
                ChordShape::new("A#", [3, 0, 1, 1]),
                ChordShape::new("G", [0, 2, 3, 0]),
                ChordShape::new("F", [0, 0, 1, 3]),
                ChordShape::new("D", [2, 2, 0, 0]),
            ],
            ChordType::SuspendedFourth => vec![
                ChordShape::new("C", [0, 0, 1, 3]),
                ChordShape::new("A", [2, 2, 0, 0]),
                ChordShape::new("G", [0, 2, 3, 3]),
                ChordShape::new("F", [3, 0, 1, 1]),
                ChordShape::new("D", [0, 2, 3, 0]),
            ],
            ChordType::Augmented => vec![
                ChordShape::new("C", [1, 0, 0, 3]),
                ChordShape::new("A", [2, 1, 1, 0]),
                ChordShape::new("G#", [1, 0, 0, 3]),
                ChordShape::new("F", [2, 1, 1, 0]),
                ChordShape::new("E", [1, 0, 0, 3]),
                ChordShape::new("C#", [2, 1, 1, 0]),
            ],
            ChordType::Diminished => vec![
                ChordShape::new("D", [7, 5, 4, 5]),
                ChordShape::new("A#", [3, 1, 0, 1]),
                ChordShape::new("G", [0, 1, 3, 1]),
                ChordShape::new("F#", [2, 0, 2, 0]),
                ChordShape::new("D#", [2, 3, 2, 0]),
            ],
            ChordType::DominantSeventh => vec![
                ChordShape::new("C", [0, 0, 0, 1]),
                ChordShape::new("A", [0, 1, 0, 0]),
                ChordShape::new("G", [0, 2, 1, 2]),
                ChordShape::new("E", [1, 2, 0, 2]),
            ],
            ChordType::MinorSeventh => vec![
                ChordShape::new("C#", [1, 1, 0, 2]),
                ChordShape::new("A", [0, 0, 0, 0]),
                ChordShape::new("G", [0, 2, 1, 1]),
                ChordShape::new("E", [0, 2, 0, 2]),
            ],
            ChordType::MajorSeventh => vec![
                ChordShape::new("C", [0, 0, 0, 2]),
                ChordShape::new("A#", [3, 2, 1, 0]),
                ChordShape::new("A", [1, 1, 0, 0]),
                ChordShape::new("G", [0, 2, 2, 2]),
                ChordShape::new("E", [1, 3, 0, 2]),
            ],
            ChordType::MinorMajorSeventh => vec![
                ChordShape::new("C#", [1, 1, 0, 3]),
                ChordShape::new("A#", [3, 1, 1, 0]),
                ChordShape::new("A", [1, 0, 0, 0]),
                ChordShape::new("G", [0, 2, 2, 1]),
                ChordShape::new("E", [0, 3, 0, 2]),
            ],
            ChordType::AugmentedSeventh => vec![
                ChordShape::new("C", [1, 0, 0, 1]),
                ChordShape::new("A", [0, 1, 1, 0]),
                ChordShape::new("G", [0, 3, 1, 2]),
                ChordShape::new("E", [1, 2, 0, 3]),
            ],
            ChordType::AugmentedMajorSeventh => vec![
                ChordShape::new("C", [1, 0, 0, 2]),
                ChordShape::new("A#", [3, 2, 2, 0]),
                ChordShape::new("A", [1, 1, 1, 0]),
                ChordShape::new("G", [0, 3, 2, 2]),
                ChordShape::new("E", [1, 3, 0, 3]),
            ],
            ChordType::DiminishedSeventh => vec![
                ChordShape::new("C#", [0, 1, 0, 1]),
                ChordShape::new("A#", [0, 1, 0, 1]),
                ChordShape::new("G", [0, 1, 0, 1]),
                ChordShape::new("E", [0, 1, 0, 1]),
            ],
            ChordType::HalfDiminishedSeventh => vec![
                ChordShape::new("C#", [0, 1, 0, 2]),
                ChordShape::new("A#", [1, 1, 0, 1]),
                ChordShape::new("G", [0, 1, 1, 1]),
                ChordShape::new("E", [0, 2, 0, 1]),
            ],
            _ => Vec::new(),
        };
        let s = ChordShapeSet { chord_shapes };
        assert(s.shapes() =~= shape_table(chord_type));
        s
    }

    /// Return a fret pattern to play a chord with root `root` starting from
    /// fret number `min_fret`: the shape that is to be moved the least (the
    /// first such shape), moved up to its place.
    pub fn get_config(self, root: Note, min_fret: FretID, tuning: Tuning) -> (p: FretPattern)
        requires
            self.shapes().len() > 0,
            forall|i: int|
                0 <= i < STRING_COUNT ==> #[trigger] self.shapes()[first_smallest(
                    self.offsets(root, min_fret, tuning),
                    self.shapes().len(),
                ) as int].1[i] + min_fret + self.offsets(root, min_fret, tuning)[first_smallest(
                    self.offsets(root, min_fret, tuning),
                    self.shapes().len(),
                ) as int] <= u8::MAX,
        ensures
            forall|i: int| 0 <= i < self.shapes().len() ==> self.offsets(root, min_fret, tuning)[first_smallest(
                self.offsets(root, min_fret, tuning),
                self.shapes().len(),
            ) as int] <= #[trigger] self.offsets(root, min_fret, tuning)[i],
            forall|i: int|
                0 <= i < STRING_COUNT ==> #[trigger] p@[i] == self.shapes()[first_smallest(
                    self.offsets(root, min_fret, tuning),
                    self.shapes().len(),
                ) as int].1[i] + min_fret + self.offsets(root, min_fret, tuning)[first_smallest(
                    self.offsets(root, min_fret, tuning),
                    self.shapes().len(),
                ) as int],
    {
        let ghost offsets = self.offsets(root, min_fret, tuning);
        let semitones = tuning.get_semitones();
        let from = root.pitch_class.sub_semitones(min_fret);
        let mut best: usize = 0;
        let mut best_offset: u8 = 0;
        let mut i: usize = 0;
        while i < self.chord_shapes.len()
            invariant
                i <= self.chord_shapes@.len(),
                self.chord_shapes@.len() == self.shapes().len(),
                offsets == self.offsets(root, min_fret, tuning),
                offsets.len() == self.shapes().len(),
                semitones == tuning.semitones(),
                from == PitchClass::of(root.pitch_class.value() - min_fret),
                i > 0 ==> best == first_smallest(offsets, i as nat) && best_offset == offsets[best as int],
                i == 0 ==> best == 0,
            decreases self.chord_shapes@.len() - i,
        {
            let cs = self.chord_shapes[i];
            proof {
                crate::pitch_class::lemma_of_value(cs.root.pitch_class);
                assert(self.shapes()[i as int].0 == cs.root);
            }
            let offset = from.diff(cs.root.pitch_class.add_semitones(semitones));
            if i == 0 || offset < best_offset {
                best = i;
                best_offset = offset;
            }
            i = i + 1;
        }
        proof {
            lemma_first_smallest(offsets, offsets.len());
            assert(self.shapes()[best as int].1 == self.chord_shapes@[best as int].fret_seq());
            assert(self.shapes()[best as int].1[0] + min_fret + offsets[best as int] <= u8::MAX);
        }
        self.chord_shapes[best].apply(min_fret + best_offset)
    }
}

} // verus!
