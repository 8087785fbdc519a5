use ukebox::{Chord, ChordShapeSet, ChordType, FretPattern, Note, PitchClass, Tuning};

fn note(s: &str) -> Note {
    Note::from_str(s).unwrap()
}

#[test]
fn test_shape_major_c() {
    let p = ChordShapeSet::new(ChordType::Major).get_config(note("C"), 0, Tuning::C);
    assert_eq!(p.iter(), vec![0, 0, 0, 3]);
}

#[test]
fn test_shape_major_d() {
    let p = ChordShapeSet::new(ChordType::Major).get_config(note("D"), 0, Tuning::C);
    assert_eq!(p.iter(), vec![2, 2, 2, 0]);
}

#[test]
fn test_shape_moved_up_from_min_fret() {
    // From fret 3 on, the A shape moved up three frets plays C.
    let p = ChordShapeSet::new(ChordType::Major).get_config(note("C"), 3, Tuning::C);
    assert_eq!(p.iter(), vec![5, 4, 3, 3]);
}

#[test]
fn test_shape_minor_in_d_tuning() {
    // D tuning lies two semitones above C tuning: the Am shape plays Bm.
    let p = ChordShapeSet::new(ChordType::Minor).get_config(note("B"), 0, Tuning::D);
    assert_eq!(p.iter(), vec![2, 0, 0, 0]);
}

#[test]
fn test_fret_pattern_from_str_with_spaces() {
    assert_eq!(FretPattern::from_str("2 2 2 0").unwrap().iter(), vec![2, 2, 2, 0]);
    assert_eq!(FretPattern::from_str("7 8 9 10").unwrap().iter(), vec![7, 8, 9, 10]);
}

#[test]
fn test_fret_pattern_from_str_fail() {
    for s in ["", "Cm", "222", "22201"] {
        assert!(FretPattern::from_str(s).is_err());
    }
}

#[test]
fn test_fret_pattern_get_chords() {
    let cases = [([0, 0, 0, 3], "C", Tuning::C), ([0, 0, 0, 3], "D", Tuning::D), ([2, 2, 2, 0], "D", Tuning::C)];
    for (frets, name, tuning) in cases {
        let chords = FretPattern::from_frets(frets).get_chords(tuning);
        assert_eq!(chords, vec![Chord::from_str(name).unwrap()]);
    }
}

#[test]
fn test_fret_pattern_get_chords_fail() {
    assert!(FretPattern::from_frets([1, 2, 3, 4]).get_chords(Tuning::C).is_empty());
}

#[test]
fn test_fret_pattern_min_max_fret() {
    let p = FretPattern::from_frets([0, 5, 3, 7]);
    assert_eq!(p.get_min_fret(), 3);
    assert_eq!(p.get_max_fret(), 7);
    assert_eq!(p.index(1), 5);
}

#[test]
fn test_fret_pattern_add() {
    let p = FretPattern::from_frets([0, 5, 3, 7]).add(2);
    assert_eq!(p.iter(), vec![2, 7, 5, 9]);
}

#[test]
fn test_fret_pattern_pitch_classes() {
    let pcs = FretPattern::from_frets([0, 0, 0, 3]).get_pitch_classes(Tuning::C);
    assert_eq!(pcs, vec![PitchClass::G, PitchClass::C, PitchClass::E, PitchClass::C]);
}

#[test]
fn test_tuning_from_str() {
    assert_eq!(Tuning::from_str("C").unwrap(), Tuning::C);
    assert_eq!(Tuning::from_str("D").unwrap(), Tuning::D);
    assert_eq!(Tuning::from_str("G").unwrap(), Tuning::G);
    let err = Tuning::from_str("X").unwrap_err();
    assert_eq!(err.to_string(), "Could not parse tuning name \"X\"");
}

#[test]
fn test_every_shape_sounds_its_chord() {
    let shaped = [
        ChordType::Major,
        ChordType::Minor,
        ChordType::SuspendedSecond,
        ChordType::SuspendedFourth,
        ChordType::Augmented,
        ChordType::Diminished,
        ChordType::DominantSeventh,
        ChordType::MinorSeventh,
        ChordType::MajorSeventh,
        ChordType::MinorMajorSeventh,
        ChordType::AugmentedSeventh,
        ChordType::AugmentedMajorSeventh,
        ChordType::DiminishedSeventh,
        ChordType::HalfDiminishedSeventh,
    ];
    let roots = ["C", "C#", "D", "D#", "E", "F", "F#", "G", "G#", "A", "A#", "B"];
    for ct in shaped {
        for root in roots {
            let p = ChordShapeSet::new(ct).get_config(note(root), 0, Tuning::C);
            let mut sounding: Vec<PitchClass> = p.get_pitch_classes(Tuning::C);
            sounding.sort();
            sounding.dedup();
            let chord = Chord::new(note(root), ct);
            let mut wanted: Vec<PitchClass> = chord.notes.iter().map(|n| n.pitch_class).collect();
            wanted.sort();
            wanted.dedup();
            assert_eq!(sounding, wanted, "{}{:?}", root, ct);
        }
    }
}

#[test]
fn test_pitch_classes_of_high_frets() {
    // The C string can take fret 250, as 0 + 250 fits in a byte.
    let p = FretPattern::from_frets([0, 250, 0, 0]);
    assert_eq!(p.get_pitch_classes(Tuning::C), vec![PitchClass::G, PitchClass::ASharp, PitchClass::E, PitchClass::A]);
    let p = FretPattern::from_frets([0, 0, 0, 3]);
    assert_eq!(p.get_pitch_classes(Tuning::C), vec![PitchClass::G, PitchClass::C, PitchClass::E, PitchClass::C]);
}
