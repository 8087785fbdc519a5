use ukebox::{
    Chord, ChordChart, ChordSequence, ChordType, Distance, Fingering, FretPattern, Interval, Note,
    PitchClass, StaffPosition, Tuning, Voicing, VoicingConfig,
};

fn note(s: &str) -> Note {
    Note::from_str(s).unwrap()
}

fn chord(s: &str) -> Chord {
    Chord::from_str(s).unwrap()
}

fn voicing(frets: [u8; 4], tuning: Tuning) -> Voicing {
    Voicing::new(FretPattern::from_frets(frets), tuning)
}

const ALL_PCS: [PitchClass; 12] = [
    PitchClass::C,
    PitchClass::CSharp,
    PitchClass::D,
    PitchClass::DSharp,
    PitchClass::E,
    PitchClass::F,
    PitchClass::FSharp,
    PitchClass::G,
    PitchClass::GSharp,
    PitchClass::A,
    PitchClass::ASharp,
    PitchClass::B,
];

#[test]
fn test_pitch_class_from_int() {
    let cases: [(u8, PitchClass); 17] = [
        (0, PitchClass::C),
        (1, PitchClass::CSharp),
        (2, PitchClass::D),
        (3, PitchClass::DSharp),
        (4, PitchClass::E),
        (5, PitchClass::F),
        (6, PitchClass::FSharp),
        (7, PitchClass::G),
        (8, PitchClass::GSharp),
        (9, PitchClass::A),
        (10, PitchClass::ASharp),
        (11, PitchClass::B),
        (12, PitchClass::C),
        (13, PitchClass::CSharp),
        (24, PitchClass::C),
        (127, PitchClass::G),
        (255, PitchClass::DSharp),
    ];
    for (n, pc) in cases {
        assert_eq!(PitchClass::from_int(n), pc);
    }
}

#[test]
fn test_pitch_class_add_int() {
    let c = PitchClass::C;
    assert_eq!(c.add_semitones(0), PitchClass::C);
    assert_eq!(c.add_semitones(1), PitchClass::CSharp);
    assert_eq!(c.add_semitones(10), PitchClass::ASharp);
    assert_eq!(c.add_semitones(12), PitchClass::C);
    assert_eq!(c.add_semitones(13), PitchClass::CSharp);
    assert_eq!(c.add_semitones(24), PitchClass::C);
}

#[test]
fn test_pitch_class_sub_self() {
    assert_eq!(PitchClass::C.diff(PitchClass::C), 0);
    assert_eq!(PitchClass::D.diff(PitchClass::C), 2);
    assert_eq!(PitchClass::D.diff(PitchClass::A), 5);
    assert_eq!(PitchClass::C.diff(PitchClass::CSharp), 11);
}

#[test]
fn test_pitch_class_sub_int() {
    assert_eq!(PitchClass::C.sub_semitones(0), PitchClass::C);
    assert_eq!(PitchClass::D.sub_semitones(2), PitchClass::C);
    assert_eq!(PitchClass::D.sub_semitones(5), PitchClass::A);
    assert_eq!(PitchClass::C.sub_semitones(11), PitchClass::CSharp);
    assert_eq!(PitchClass::C.sub_semitones(12), PitchClass::C);
    assert_eq!(PitchClass::C.sub_semitones(13), PitchClass::B);
}

#[test]
fn test_pitch_class_add_then_sub_gives_back() {
    for pc in ALL_PCS {
        for n in 0..200u8 {
            assert_eq!(pc.add_semitones(n).sub_semitones(n), pc);
            assert_eq!(pc.add_semitones(n).diff(pc), n % 12);
        }
    }
}

#[test]
fn test_staff_position_from_int_and_add() {
    assert_eq!(StaffPosition::from_int(0), StaffPosition::CPos);
    assert_eq!(StaffPosition::from_int(6), StaffPosition::BPos);
    assert_eq!(StaffPosition::from_int(7), StaffPosition::CPos);
    assert_eq!(StaffPosition::from_int(15), StaffPosition::DPos);
    assert_eq!(StaffPosition::BPos.add_steps(2), StaffPosition::DPos);
    assert_eq!(StaffPosition::CPos.add_steps(4), StaffPosition::GPos);
}

#[test]
fn test_interval_semitones_and_number() {
    let cases = [
        ("P1", 0, 1),
        ("M2", 2, 2),
        ("m3", 3, 3),
        ("M3", 4, 3),
        ("P4", 5, 4),
        ("d5", 6, 5),
        ("P5", 7, 5),
        ("A5", 8, 5),
        ("M6", 9, 6),
        ("d7", 9, 7),
        ("m7", 10, 7),
        ("M7", 11, 7),
        ("m9", 13, 9),
        ("M9", 14, 9),
        ("A9", 15, 9),
        ("P11", 17, 11),
        ("M13", 21, 13),
    ];
    for (name, semitones, number) in cases {
        let i = Interval::from_str(name).unwrap();
        assert_eq!(i.to_semitones(), semitones, "{}", name);
        assert_eq!(i.to_number(), number, "{}", name);
    }
}

#[test]
fn test_interval_from_str_fail() {
    let err = Interval::from_str("M4").unwrap_err();
    assert_eq!(err.to_string(), "Could not parse interval name \"M4\"");
    assert!(Interval::from_str("").is_err());
    assert!(Interval::from_str("P111").is_err());
}

#[test]
fn test_note_from_and_to_str() {
    for s in [
        "C", "C#", "Db", "D", "D#", "Eb", "E", "F", "F#", "Gb", "G", "G#", "Ab", "A", "A#", "Bb", "B",
    ] {
        assert_eq!(note(s).to_string(), s);
    }
}

#[test]
fn test_note_from_str_fail() {
    let err = Note::from_str("H").unwrap_err();
    assert_eq!(err.to_string(), "Could not parse note name \"H\"");
    assert!(Note::from_str("Cb").is_err());
    assert!(Note::from_str("").is_err());
    assert!(Note::from_str("C##").is_err());
}

#[test]
fn test_note_from_pitch_class() {
    let names = ["C", "C#", "D", "D#", "E", "F", "F#", "G", "G#", "A", "A#", "B"];
    for (pc, s) in ALL_PCS.iter().zip(names) {
        assert_eq!(Note::from_pitch_class(*pc).to_string(), s);
    }
}

#[test]
fn test_note_add_interval() {
    assert_eq!(note("C").add_interval(Interval::PerfectUnison), note("C"));
    assert_eq!(note("C").add_interval(Interval::MinorThird), note("Eb"));
    assert_eq!(note("C").add_interval(Interval::MajorThird), note("E"));
    assert_eq!(note("C").add_interval(Interval::PerfectFifth), note("G"));
    assert_eq!(note("C#").add_interval(Interval::PerfectUnison), note("C#"));
    assert_eq!(note("C#").add_interval(Interval::MajorThird), note("F"));
}

#[test]
fn test_note_add_semitones() {
    let cases = [
        ("C", 0, "C"),
        ("C#", 0, "C#"),
        ("Db", 0, "Db"),
        ("C", 1, "C#"),
        ("C", 3, "D#"),
        ("C", 4, "E"),
        ("C", 7, "G"),
        ("A", 3, "C"),
        ("A", 12, "A"),
    ];
    for (a, n, b) in cases {
        assert_eq!(note(a).add_semitones(n).to_string(), b);
    }
}

#[test]
fn test_note_subtract_semitones() {
    let cases = [
        ("C", 0, "C"),
        ("C#", 0, "C#"),
        ("Db", 0, "Db"),
        ("C", 1, "B"),
        ("C", 2, "Bb"),
        ("A", 3, "Gb"),
        ("A", 12, "A"),
    ];
    for (a, n, b) in cases {
        assert_eq!(note(a).sub_semitones(n).to_string(), b);
    }
}

#[test]
fn test_note_equality_by_pitch_class() {
    // B sharp, C and D double flat all sound as C.
    let b_sharp = Note::new(PitchClass::C, StaffPosition::BPos);
    let d_double_flat = Note::new(PitchClass::C, StaffPosition::DPos);
    assert_eq!(b_sharp, note("C"));
    assert_eq!(d_double_flat, note("C"));
    assert_eq!(note("C#"), note("Db"));
    assert_ne!(note("C#"), note("D"));
    // B + M2 is written C#, and stands for the Db of B7sus2.
    assert_eq!(note("B").add_interval(Interval::MajorSecond).to_string(), "C#");
    assert_eq!(chord("B7sus2").notes[1], note("Db"));
}

#[test]
fn test_tuning_roots() {
    let names = |t: Tuning| -> Vec<String> { t.roots().iter().map(|n| n.to_string()).collect() };
    assert_eq!(names(Tuning::C), vec!["G", "C", "E", "A"]);
    assert_eq!(names(Tuning::D), vec!["A", "D", "F#", "B"]);
    assert_eq!(names(Tuning::G), vec!["D", "G", "B", "E"]);
    assert_eq!(Tuning::D.get_semitones(), 2);
    assert_eq!(Tuning::G.get_interval(), Interval::PerfectFifth);
    assert_eq!(Tuning::G.to_string(), "G");
}

#[test]
fn test_chord_type_from_pitches() {
    let cases: Vec<(Vec<PitchClass>, ChordType)> = vec![
        (vec![PitchClass::C, PitchClass::E, PitchClass::G], ChordType::Major),
        (vec![PitchClass::C, PitchClass::E, PitchClass::G, PitchClass::B], ChordType::MajorSeventh),
        (vec![PitchClass::C, PitchClass::E, PitchClass::G, PitchClass::B, PitchClass::D], ChordType::MajorNinth),
        (vec![PitchClass::C, PitchClass::E, PitchClass::B, PitchClass::D], ChordType::MajorNinth),
        (vec![PitchClass::C, PitchClass::E, PitchClass::G, PitchClass::B, PitchClass::D, PitchClass::F], ChordType::MajorEleventh),
        (vec![PitchClass::C, PitchClass::E, PitchClass::B, PitchClass::F], ChordType::MajorEleventh),
        (vec![PitchClass::C, PitchClass::E, PitchClass::G, PitchClass::B, PitchClass::D, PitchClass::F, PitchClass::A], ChordType::MajorThirteenth),
        (vec![PitchClass::C, PitchClass::E, PitchClass::B, PitchClass::A], ChordType::MajorThirteenth),
        (vec![PitchClass::C, PitchClass::E, PitchClass::G, PitchClass::A], ChordType::MajorSixth),
        (vec![PitchClass::C, PitchClass::E, PitchClass::G, PitchClass::A, PitchClass::D], ChordType::SixthNinth),
        (vec![PitchClass::C, PitchClass::E, PitchClass::A, PitchClass::D], ChordType::SixthNinth),
        (vec![PitchClass::C, PitchClass::E, PitchClass::G, PitchClass::ASharp], ChordType::DominantSeventh),
        (vec![PitchClass::C, PitchClass::E, PitchClass::G, PitchClass::ASharp, PitchClass::D], ChordType::DominantNinth),
        (vec![PitchClass::C, PitchClass::E, PitchClass::ASharp, PitchClass::D], ChordType::DominantNinth),
        (vec![PitchClass::C, PitchClass::E, PitchClass::G, PitchClass::ASharp, PitchClass::D, PitchClass::F], ChordType::DominantEleventh),
        (vec![PitchClass::C, PitchClass::E, PitchClass::ASharp, PitchClass::F], ChordType::DominantEleventh),
        (vec![PitchClass::C, PitchClass::E, PitchClass::G, PitchClass::ASharp, PitchClass::D, PitchClass::F, PitchClass::A], ChordType::DominantThirteenth),
        (vec![PitchClass::C, PitchClass::E, PitchClass::ASharp, PitchClass::D, PitchClass::A], ChordType::DominantThirteenth),
        (vec![PitchClass::C, PitchClass::E, PitchClass::ASharp, PitchClass::A], ChordType::DominantThirteenth),
        (vec![PitchClass::C, PitchClass::E, PitchClass::G, PitchClass::ASharp, PitchClass::CSharp], ChordType::DominantSeventhFlatNinth),
        (vec![PitchClass::C, PitchClass::E, PitchClass::ASharp, PitchClass::CSharp], ChordType::DominantSeventhFlatNinth),
        (vec![PitchClass::C, PitchClass::E, PitchClass::G, PitchClass::ASharp, PitchClass::DSharp], ChordType::DominantSeventhSharpNinth),
        (vec![PitchClass::C, PitchClass::E, PitchClass::ASharp, PitchClass::DSharp], ChordType::DominantSeventhSharpNinth),
        (vec![PitchClass::C, PitchClass::E, PitchClass::FSharp, PitchClass::ASharp], ChordType::DominantSeventhFlatFifth),
        (vec![PitchClass::C, PitchClass::F, PitchClass::G], ChordType::SuspendedFourth),
        (vec![PitchClass::C, PitchClass::D, PitchClass::G], ChordType::SuspendedSecond),
        (vec![PitchClass::C, PitchClass::F, PitchClass::G, PitchClass::ASharp], ChordType::DominantSeventhSuspendedFourth),
        (vec![PitchClass::C, PitchClass::D, PitchClass::G, PitchClass::ASharp], ChordType::DominantSeventhSuspendedSecond),
        (vec![PitchClass::C, PitchClass::DSharp, PitchClass::G], ChordType::Minor),
        (vec![PitchClass::C, PitchClass::DSharp, PitchClass::G, PitchClass::ASharp], ChordType::MinorSeventh),
        (vec![PitchClass::C, PitchClass::DSharp, PitchClass::G, PitchClass::B], ChordType::MinorMajorSeventh),
        (vec![PitchClass::C, PitchClass::DSharp, PitchClass::G, PitchClass::A], ChordType::MinorSixth),
        (vec![PitchClass::C, PitchClass::DSharp, PitchClass::G, PitchClass::ASharp, PitchClass::D], ChordType::MinorNinth),
        (vec![PitchClass::C, PitchClass::DSharp, PitchClass::ASharp, PitchClass::D], ChordType::MinorNinth),
        (vec![PitchClass::C, PitchClass::DSharp, PitchClass::G, PitchClass::ASharp, PitchClass::D, PitchClass::F], ChordType::MinorEleventh),
        (vec![PitchClass::C, PitchClass::DSharp, PitchClass::D, PitchClass::ASharp, PitchClass::F], ChordType::MinorEleventh),
        (vec![PitchClass::C, PitchClass::DSharp, PitchClass::G, PitchClass::ASharp, PitchClass::D, PitchClass::F, PitchClass::A], ChordType::MinorThirteenth),
        (vec![PitchClass::C, PitchClass::DSharp, PitchClass::D, PitchClass::ASharp, PitchClass::A], ChordType::MinorThirteenth),
        (vec![PitchClass::C, PitchClass::DSharp, PitchClass::FSharp], ChordType::Diminished),
        (vec![PitchClass::C, PitchClass::DSharp, PitchClass::FSharp, PitchClass::A], ChordType::DiminishedSeventh),
        (vec![PitchClass::C, PitchClass::DSharp, PitchClass::FSharp, PitchClass::ASharp], ChordType::HalfDiminishedSeventh),
        (vec![PitchClass::C, PitchClass::G], ChordType::Fifth),
        (vec![PitchClass::C, PitchClass::E, PitchClass::GSharp], ChordType::Augmented),
        (vec![PitchClass::C, PitchClass::E, PitchClass::GSharp, PitchClass::ASharp], ChordType::AugmentedSeventh),
        (vec![PitchClass::C, PitchClass::E, PitchClass::GSharp, PitchClass::B], ChordType::AugmentedMajorSeventh),
        (vec![PitchClass::C, PitchClass::E, PitchClass::G, PitchClass::D], ChordType::AddedNinth),
        (vec![PitchClass::C, PitchClass::D, PitchClass::E, PitchClass::G], ChordType::AddedNinth),
        (vec![PitchClass::C, PitchClass::E, PitchClass::F, PitchClass::G], ChordType::AddedFourth),
        (vec![PitchClass::D, PitchClass::FSharp, PitchClass::A], ChordType::Major),
        (vec![PitchClass::D, PitchClass::F, PitchClass::A], ChordType::Minor),
        (vec![PitchClass::D, PitchClass::FSharp, PitchClass::A, PitchClass::C], ChordType::DominantSeventh),
        (vec![PitchClass::G, PitchClass::B, PitchClass::D], ChordType::Major),
        (vec![PitchClass::C, PitchClass::G, PitchClass::E], ChordType::Major),
    ];
    for (pitches, ct) in cases {
        assert_eq!(ChordType::try_from(&pitches[..]).unwrap(), ct, "{:?}", pitches);
    }
}

#[test]
fn test_chord_type_from_pitches_error() {
    for pitches in [vec![PitchClass::C, PitchClass::E], vec![PitchClass::D], vec![PitchClass::C, PitchClass::F, PitchClass::ASharp]] {
        assert_eq!(ChordType::try_from(&pitches[..]), Err("No matching chord type found."));
    }
}

#[test]
fn test_no_chord_from_too_few_pitches() {
    let empty: Vec<PitchClass> = vec![];
    assert_eq!(ChordType::try_from(&empty[..]), Err("No matching chord type found."));
    assert_eq!(Chord::try_from(&empty[..]), Err("No matching chord type found."));
    let single = vec![PitchClass::D];
    assert_eq!(ChordType::try_from(&single[..]), Err("No matching chord type found."));
    assert_eq!(Chord::try_from(&single[..]), Err("No matching chord type found."));
    let third = vec![PitchClass::C, PitchClass::E];
    assert_eq!(ChordType::try_from(&third[..]), Err("No matching chord type found."));
    assert_eq!(Chord::try_from(&third[..]), Err("No matching chord type found."));
}

#[test]
fn test_required_intervals() {
    let names = |ct: ChordType| -> Vec<Interval> { ct.required_intervals() };
    let ints = |v: &[&str]| -> Vec<Interval> { v.iter().map(|s| Interval::from_str(s).unwrap()).collect() };
    assert_eq!(names(ChordType::Major), ints(&["P1", "M3", "P5"]));
    assert_eq!(names(ChordType::MajorSeventh), ints(&["P1", "M3", "M7"]));
    assert_eq!(names(ChordType::DominantThirteenth), ints(&["P1", "M3", "m7", "M13"]));
}

#[test]
fn test_chord_type_symbols_and_names() {
    assert_eq!(ChordType::Major.symbols(), vec!["", "maj", "M"]);
    assert_eq!(ChordType::HalfDiminishedSeventh.symbols(), vec!["m7b5", "ø", "ø7"]);
    assert_eq!(ChordType::MinorMajorSeventh.to_symbol(), "mMaj7");
    assert_eq!(ChordType::SixthNinth.to_string(), "6th/9th");
    assert_eq!(ChordType::values().len(), 34);
    assert_eq!(ChordType::from_str("7#5"), Ok(ChordType::AugmentedSeventh));
    assert_eq!(ChordType::from_str("blah"), Err("no valid chord type"));
    // Every symbol names its own chord type.
    for ct in ChordType::values() {
        for sym in ct.symbols() {
            assert_eq!(ChordType::from_str(sym), Ok(ct));
        }
    }
}

#[test]
fn test_chord_from_pitches() {
    let cases: Vec<(Vec<PitchClass>, &str)> = vec![
        (vec![PitchClass::C, PitchClass::E, PitchClass::G], "C"),
        (vec![PitchClass::C, PitchClass::DSharp, PitchClass::G], "Cm"),
        (vec![PitchClass::C, PitchClass::D, PitchClass::G], "Csus2"),
        (vec![PitchClass::C, PitchClass::F, PitchClass::G], "Csus4"),
        (vec![PitchClass::C, PitchClass::E, PitchClass::GSharp], "Caug"),
        (vec![PitchClass::C, PitchClass::DSharp, PitchClass::FSharp], "Cdim"),
        (vec![PitchClass::C, PitchClass::E, PitchClass::G, PitchClass::ASharp], "C7"),
        (vec![PitchClass::C, PitchClass::DSharp, PitchClass::G, PitchClass::ASharp], "Cm7"),
        (vec![PitchClass::C, PitchClass::E, PitchClass::G, PitchClass::B], "Cmaj7"),
        (vec![PitchClass::C, PitchClass::DSharp, PitchClass::G, PitchClass::B], "CmMaj7"),
        (vec![PitchClass::C, PitchClass::E, PitchClass::GSharp, PitchClass::ASharp], "Caug7"),
        (vec![PitchClass::C, PitchClass::E, PitchClass::GSharp, PitchClass::B], "CaugMaj7"),
        (vec![PitchClass::C, PitchClass::DSharp, PitchClass::FSharp, PitchClass::A], "Cdim7"),
        (vec![PitchClass::C, PitchClass::DSharp, PitchClass::FSharp, PitchClass::ASharp], "Cm7b5"),
        (vec![PitchClass::D, PitchClass::FSharp, PitchClass::A], "D"),
        (vec![PitchClass::D, PitchClass::F, PitchClass::A], "Dm"),
        (vec![PitchClass::D, PitchClass::FSharp, PitchClass::A, PitchClass::C], "D7"),
        (vec![PitchClass::G, PitchClass::B, PitchClass::D], "G"),
        (vec![PitchClass::C, PitchClass::G, PitchClass::E], "C"),
    ];
    for (pitches, name) in cases {
        assert_eq!(Chord::try_from(&pitches[..]).unwrap(), chord(name), "{}", name);
    }
}

#[test]
fn test_add_semitones() {
    let cases = [
        ("C", 0, "C"),
        ("C#", 0, "C#"),
        ("Db", 0, "Db"),
        ("Cm", 1, "C#m"),
        ("Cmaj7", 2, "Dmaj7"),
        ("Cdim", 4, "Edim"),
        ("C#", 2, "D#"),
        ("A#m", 3, "C#m"),
        ("A", 12, "A"),
        ("A#", 12, "A#"),
        ("Ab", 12, "Ab"),
    ];
    for (a, n, b) in cases {
        assert_eq!(chord(a).add_semitones(n), chord(b), "{} + {}", a, n);
    }
}

#[test]
fn test_subtract_semitones() {
    let cases = [
        ("C", 0, "C"),
        ("C#", 0, "C#"),
        ("Db", 0, "Db"),
        ("Cm", 1, "Bm"),
        ("Cmaj7", 2, "Bbmaj7"),
        ("Adim", 3, "Gbdim"),
        ("A", 12, "A"),
        ("A#", 12, "A#"),
        ("Ab", 12, "Ab"),
    ];
    for (a, n, b) in cases {
        assert_eq!(chord(a).sub_semitones(n), chord(b), "{} - {}", a, n);
    }
}

#[test]
fn test_transpose() {
    let cases = [
        ("C", 0, "C"),
        ("C#", 0, "C#"),
        ("Db", 0, "Db"),
        ("Cm", 1, "C#m"),
        ("Cmaj7", 2, "Dmaj7"),
        ("Cdim", 4, "Edim"),
        ("C#", 2, "D#"),
        ("A#m", 3, "C#m"),
        ("A", 12, "A"),
        ("A#", 12, "A#"),
        ("Ab", 12, "Ab"),
        ("Cm", -1, "Bm"),
        ("Cmaj7", -2, "Bbmaj7"),
        ("Adim", -3, "Gbdim"),
        ("A", -12, "A"),
        ("A#", -12, "A#"),
        ("Ab", -12, "Ab"),
    ];
    for (a, n, b) in cases {
        assert_eq!(chord(a).transpose(n), chord(b), "{} transposed by {}", a, n);
    }
}

#[test]
fn test_played_notes() {
    let cases: [(&str, &[&str]); 4] = [
        ("C", &["C", "E", "G"]),
        ("C7", &["C", "E", "Bb", "G"]),
        ("C11", &["C", "E", "Bb", "F"]),
        ("C13", &["C", "E", "Bb", "A"]),
    ];
    for (c, notes) in cases {
        let expected: Vec<Note> = notes.iter().map(|s| note(s)).collect();
        assert_eq!(chord(c).played_notes(), expected, "{}", c);
    }
}

#[test]
fn test_chord_to_string() {
    assert_eq!(chord("C").to_string(), "C - C major");
    assert_eq!(chord("Dbmaj7").to_string(), "Dbmaj7 - Db major 7th");
    assert_eq!(chord("C#M7").to_string(), "C#maj7 - C# major 7th");
    assert_eq!(Chord::from_str("blafoo").unwrap_err().to_string(), "Could not parse chord name \"blafoo\"");
}

#[test]
fn test_voicing_compare() {
    let cases = [([0, 0, 0, 0], [0, 0, 0, 1]), ([0, 3, 3, 3], [0, 0, 3, 6]), ([0, 0, 8, 6], [0, 7, 8, 6])];
    for (a, b) in cases {
        let v1 = voicing(a, Tuning::C);
        let v2 = voicing(b, Tuning::C);
        assert!(v1.lt(&v2));
        assert!(!v2.lt(&v1));
    }
}

#[test]
fn test_count_pressed_strings() {
    let cases = [([0, 0, 0, 0], 0), ([0, 0, 0, 3], 1), ([1, 1, 1, 1], 4), ([1, 2, 3, 4], 4)];
    for (frets, count) in cases {
        assert_eq!(voicing(frets, Tuning::C).count_pressed_strings(), count);
    }
}

#[test]
fn test_get_min_max_fret_and_span() {
    let cases = [
        ([0, 0, 0, 0], 0, 0, 0, 0),
        ([1, 1, 1, 1], 1, 1, 1, 1),
        ([2, 0, 1, 3], 1, 0, 3, 3),
        ([5, 5, 5, 6], 5, 5, 6, 2),
        ([3, 0, 0, 12], 3, 0, 12, 10),
    ];
    for (frets, min_pressed, min, max, span) in cases {
        let v = voicing(frets, Tuning::C);
        assert_eq!(v.get_min_pressed_fret(), min_pressed);
        assert_eq!(v.get_min_fret(), min);
        assert_eq!(v.get_max_fret(), max);
        assert_eq!(v.get_span(), span);
    }
}

#[test]
fn test_spells_out() {
    let cases = [
        ([0, 0, 0, 3], "C", true),
        ([5, 4, 3, 3], "C", true),
        ([0, 2, 0, 3], "C", false),
        ([0, 0, 3, 0], "C", false),
        ([0, 3, 3, 3], "Cm", true),
        ([1, 1, 1, 4], "C#", true),
    ];
    for (frets, c, expected) in cases {
        assert_eq!(voicing(frets, Tuning::C).spells_out(&chord(c)), expected, "{:?} {}", frets, c);
    }
}

#[test]
fn test_spells_out_by_sound() {
    // G# C# F C# sounds both as C# major and as Db major.
    assert!(voicing([1, 1, 1, 4], Tuning::C).spells_out(&chord("C#")));
    assert!(voicing([1, 1, 1, 4], Tuning::C).spells_out(&chord("Db")));
    // G D# G C sounds as C minor, written C Eb G.
    assert!(voicing([0, 3, 3, 3], Tuning::C).spells_out(&chord("Cm")));
    assert!(!voicing([0, 3, 3, 3], Tuning::C).spells_out(&chord("C")));
}

#[test]
fn test_get_chords() {
    let cases = [([0, 0, 0, 3], "C", Tuning::C), ([0, 0, 0, 3], "D", Tuning::D), ([2, 2, 2, 0], "D", Tuning::C)];
    for (frets, c, tuning) in cases {
        assert_eq!(voicing(frets, tuning).get_chords(), vec![chord(c)]);
    }
    assert!(voicing([1, 2, 3, 4], Tuning::C).get_chords().is_empty());
}

#[test]
fn test_get_chords_several() {
    // 0233 is both Csus2 and Gsus4.
    let chords = voicing([0, 2, 3, 3], Tuning::C).get_chords();
    assert_eq!(chords, vec![chord("Csus2"), chord("Gsus4")]);
    let names: Vec<String> = chords.iter().map(|c| c.to_string()).collect();
    assert_eq!(names, vec!["Csus2 - C suspended 2nd", "Gsus4 - G suspended 4th"]);
}

#[test]
fn test_has_barre() {
    let cases: [([u8; 4], bool); 40] = [
        ([0, 0, 0, 0], false),
        ([1, 0, 0, 0], false),
        ([0, 1, 0, 0], false),
        ([0, 0, 1, 0], false),
        ([0, 0, 0, 1], false),
        ([1, 1, 0, 0], false),
        ([2, 1, 0, 0], false),
        ([1, 0, 1, 0], false),
        ([2, 0, 1, 0], false),
        ([1, 0, 0, 1], false),
        ([0, 1, 1, 0], false),
        ([0, 1, 0, 1], false),
        ([0, 0, 1, 1], false),
        ([1, 1, 1, 0], false),
        ([1, 1, 0, 1], false),
        ([1, 0, 1, 1], false),
        ([0, 1, 1, 1], false),
        ([0, 1, 2, 1], false),
        ([0, 1, 4, 1], false),
        ([0, 2, 1, 2], false),
        ([0, 3, 2, 1], false),
        ([0, 2, 1, 1], true),
        ([1, 2, 1, 2], false),
        ([1, 3, 1, 3], false),
        ([2, 4, 1, 3], false),
        ([3, 3, 3, 1], false),
        ([1, 2, 2, 2], false),
        ([1, 1, 1, 1], true),
        ([1, 1, 1, 2], true),
        ([1, 1, 1, 3], true),
        ([1, 1, 1, 4], true),
        ([1, 1, 2, 1], true),
        ([1, 2, 1, 1], true),
        ([1, 3, 3, 1], true),
        ([2, 1, 1, 1], true),
        ([3, 1, 1, 1], true),
        ([3, 2, 1, 1], true),
        ([3, 1, 2, 1], true),
        ([3, 1, 1, 3], true),
        ([4, 4, 4, 4], true),
    ];
    for (frets, expected) in cases {
        assert_eq!(voicing(frets, Tuning::C).has_barre(), expected, "{:?}", frets);
    }
}

#[test]
fn test_fingers_on_strings() {
    let cases: [([u8; 4], [u8; 4]); 33] = [
        ([0, 0, 0, 0], [0, 0, 0, 0]),
        ([2, 0, 0, 0], [2, 0, 0, 0]),
        ([0, 0, 0, 3], [0, 0, 0, 3]),
        ([0, 0, 0, 7], [0, 0, 0, 1]),
        ([9, 0, 0, 0], [1, 0, 0, 0]),
        ([0, 0, 0, 10], [0, 0, 0, 1]),
        ([2, 0, 1, 0], [2, 0, 1, 0]),
        ([2, 0, 0, 3], [2, 0, 0, 3]),
        ([2, 2, 2, 0], [1, 2, 3, 0]),
        ([0, 2, 3, 2], [0, 1, 3, 2]),
        ([1, 0, 1, 3], [1, 0, 2, 4]),
        ([1, 1, 0, 4], [1, 2, 0, 4]),
        ([3, 0, 3, 1], [3, 0, 4, 1]),
        ([11, 0, 10, 12], [2, 0, 1, 3]),
        ([0, 4, 3, 3], [0, 2, 1, 1]),
        ([2, 3, 2, 3], [1, 3, 2, 4]),
        ([2, 3, 5, 3], [1, 2, 4, 3]),
        ([2, 4, 1, 3], [2, 4, 1, 3]),
        ([3, 3, 3, 1], [2, 3, 4, 1]),
        ([1, 4, 4, 4], [1, 2, 3, 4]),
        ([11, 12, 10, 12], [2, 3, 1, 4]),
        ([3, 3, 3, 3], [1, 1, 1, 1]),
        ([2, 2, 2, 3], [1, 1, 1, 2]),
        ([4, 2, 2, 2], [3, 1, 1, 1]),
        ([4, 2, 3, 2], [3, 1, 2, 1]),
        ([1, 1, 1, 4], [1, 1, 1, 4]),
        ([3, 2, 1, 1], [3, 2, 1, 1]),
        ([4, 3, 2, 2], [3, 2, 1, 1]),
        ([3, 1, 1, 3], [3, 1, 1, 4]),
        ([1, 3, 3, 1], [1, 3, 4, 1]),
        ([0, 0, 1, 5], [0, 0, 1, 4]),
        ([3, 0, 1, 5], [3, 0, 1, 4]),
        ([3, 5, 1, 5], [2, 3, 1, 4]),
    ];
    for (frets, fingering) in cases {
        assert_eq!(voicing(frets, Tuning::C).fingers_on_strings(), fingering, "{:?}", frets);
    }
}

#[test]
fn test_semitone_distance() {
    let cases = [
        ([0, 0, 0, 0], [0, 0, 0, 0], 0),
        ([0, 0, 0, 3], [2, 0, 1, 3], 3),
        ([2, 0, 1, 3], [0, 0, 0, 3], 3),
        ([0, 0, 0, 3], [2, 0, 1, 0], 6),
        ([3, 2, 1, 1], [5, 4, 3, 3], 8),
        ([3, 2, 1, 1], [0, 0, 0, 3], 8),
    ];
    for (a, b, d) in cases {
        assert_eq!(voicing(a, Tuning::C).semitone_distance(voicing(b, Tuning::C)), d);
    }
}

#[test]
fn test_fingering_from_voicing() {
    let cases = [
        ([0, 0, 0, 0], [(0, 0), (0, 0), (0, 0), (0, 0)]),
        ([2, 2, 2, 0], [(1, 2), (2, 2), (3, 2), (0, 0)]),
        ([2, 2, 2, 2], [(1, 2), (0, 0), (0, 0), (0, 0)]),
    ];
    for (frets, positions) in cases {
        let f1 = Fingering::from_voicing(voicing(frets, Tuning::C));
        let f2 = Fingering::from_positions(positions);
        assert_eq!(f1, f2);
    }
}

#[test]
fn test_fingering_distance() {
    let cases = [
        ([(0, 0), (0, 0), (0, 0), (0, 0)], [(0, 0), (0, 0), (0, 0), (0, 0)], 0),
        ([(1, 2), (2, 2), (3, 2), (0, 0)], [(1, 2), (2, 2), (3, 2), (0, 0)], 0),
        ([(0, 0), (0, 0), (0, 0), (0, 0)], [(1, 2), (2, 2), (3, 2), (0, 0)], 3),
        ([(1, 2), (2, 2), (3, 2), (0, 0)], [(0, 0), (0, 0), (0, 0), (0, 0)], 3),
        ([(1, 2), (2, 2), (3, 2), (0, 0)], [(1, 2), (2, 2), (3, 3), (0, 0)], 1),
        ([(1, 2), (0, 0), (0, 0), (0, 0)], [(3, 4), (0, 0), (0, 0), (0, 0)], 4),
    ];
    for (a, b, d) in cases {
        assert_eq!(Fingering::from_positions(a).distance(Fingering::from_positions(b)), d);
    }
}

#[test]
fn test_voicing_distance() {
    let c = voicing([0, 0, 0, 3], Tuning::C);
    let f = voicing([2, 0, 1, 0], Tuning::C);
    // C: finger 3 on the A string; F: finger 2 on the G string, finger 1 on the E string.
    assert_eq!(c.semitone_distance(f), 6);
    assert_eq!(c.fingering_distance(f), 3);
    assert_eq!(c.distance(f), Distance::new(6, 3));
    assert_eq!(c.distance(f).semitone_distance(), 6);
}

#[test]
fn test_distance_order_and_sum() {
    assert!(Distance::new(1, 9).is_le(&Distance::new(2, 0)));
    assert!(Distance::new(2, 1).is_le(&Distance::new(2, 1)));
    assert!(!Distance::new(2, 2).is_le(&Distance::new(2, 1)));
    assert_eq!(Distance::new(1, 2).add(Distance::new(3, 4)), Distance::new(4, 6));
    assert_eq!(Distance::default(), Distance::new(0, 0));
}

fn chart(c: &str, tuning: Tuning) -> String {
    let config = VoicingConfig { tuning, ..Default::default() };
    let v = chord(c).voicings(config)[0];
    ChordChart::new(v, 4).to_string()
}

#[test]
fn test_to_diagram() {
    assert_eq!(
        chart("C", Tuning::C),
        "A  ||---|---|-3-|---|- C\nE o||---|---|---|---|- E\nC o||---|---|---|---|- C\nG o||---|---|---|---|- G\n"
    );
    assert_eq!(
        chart("C#", Tuning::C),
        "A  ||---|---|---|-4-|- C#\nE  ||-1-|---|---|---|- F\nC  ||-1-|---|---|---|- C#\nG  ||-1-|---|---|---|- G#\n"
    );
    assert_eq!(
        chart("Db", Tuning::C),
        "A  ||---|---|---|-4-|- Db\nE  ||-1-|---|---|---|- F\nC  ||-1-|---|---|---|- Db\nG  ||-1-|---|---|---|- Ab\n"
    );
    assert_eq!(
        chart("C#m", Tuning::C),
        "A  ||---|---|---|-4-|- C#\nE o||---|---|---|---|- E\nC  ||-2-|---|---|---|- C#\nG  ||-1-|---|---|---|- G#\n"
    );
    assert_eq!(
        chart("D", Tuning::D),
        "B   ||---|---|-3-|---|- D\nF# o||---|---|---|---|- F#\nD  o||---|---|---|---|- D\nA  o||---|---|---|---|- A\n"
    );
    assert_eq!(
        chart("G", Tuning::G),
        "E  ||---|---|-3-|---|- G\nB o||---|---|---|---|- B\nG o||---|---|---|---|- G\nD o||---|---|---|---|- D\n"
    );
}

#[test]
fn test_chart_with_base_fret() {
    let config = VoicingConfig { min_fret: 3, ..Default::default() };
    let v = chord("G").voicings(config)[0];
    assert_eq!(v.frets(), vec![4, 7, 7, 5]);
    let text = ChordChart::new(v, 4).to_string();
    assert_eq!(
        text,
        "A  -|---|-2-|---|---|- D\nE  -|---|---|---|-4-|- B\nC  -|---|---|---|-3-|- G\nG  -|-1-|---|---|---|- B\n      4\n"
    );
}

#[test]
fn test_voicings_all() {
    let config = VoicingConfig { max_fret: 5, ..Default::default() };
    let frets: Vec<Vec<u8>> = chord("C").voicings(config).iter().map(|v| v.frets()).collect();
    assert_eq!(frets, vec![vec![0, 0, 0, 3], vec![0, 4, 0, 3], vec![0, 4, 3, 3], vec![5, 4, 3, 3]]);
    let none = VoicingConfig { max_fret: 1, ..Default::default() };
    assert!(chord("C").voicings(none).is_empty());
}

#[test]
fn test_fret_pattern_from_str() {
    let cases = [("2220", [2, 2, 2, 0]), ("2 2 2 0", [2, 2, 2, 0]), ("7 8 9 10", [7, 8, 9, 10]), ("+1 0 0 255", [1, 0, 0, 255])];
    for (s, frets) in cases {
        assert_eq!(FretPattern::from_str(s).unwrap().iter(), frets.to_vec());
    }
    for s in ["", "Cm", "222", "22201", "1  2 3 4", "1 2 3 256", "blafoo"] {
        assert!(FretPattern::from_str(s).is_err(), "{}", s);
    }
}

#[test]
fn test_chord_sequence_from_str() {
    let cases: [(&str, &[&str]); 5] = [
        ("", &[]),
        ("C", &["C"]),
        ("C F G", &["C", "F", "G"]),
        ("Dsus2 Am7 C#", &["Dsus2", "Am7", "C#"]),
        ("  C\tF\n G  ", &["C", "F", "G"]),
    ];
    for (s, names) in cases {
        let seq = ChordSequence::from_str(s).unwrap();
        let expected: Vec<Chord> = names.iter().map(|n| chord(n)).collect();
        assert_eq!(seq.chords().clone(), expected);
    }
    assert!(ChordSequence::from_str("Z").is_err());
    assert!(ChordSequence::from_str("A Z").is_err());
}

#[test]
fn test_chord_sequence_transpose() {
    let cases = [("", 0, ""), ("C F G", 0, "C F G"), ("C F G", 1, "C# F# G#"), ("C F G", -1, "B E Gb"), ("C F G", 12, "C F G")];
    for (a, n, b) in cases {
        let s1 = ChordSequence::from_str(a).unwrap().transpose(n);
        let s2 = ChordSequence::from_str(b).unwrap();
        assert_eq!(s1, s2);
    }
}

#[test]
fn test_voicing_config_default() {
    let c = VoicingConfig::default();
    assert_eq!(c.tuning, Tuning::C);
    assert_eq!((c.min_fret, c.max_fret, c.max_span), (0, 12, 4));
}
