use ukebox::{Chord, ChordType, Note};

fn check_chord(name: &str, expected: &[&str], chord_type: ChordType) {
    let chord = Chord::from_str(name).unwrap();
    let notes: Vec<Note> = expected.iter().map(|s| Note::from_str(s).unwrap()).collect();
    assert_eq!(chord.notes, notes, "notes of {}", name);
    assert_eq!(chord.chord_type, chord_type, "chord type of {}", name);
}

#[test]
fn test_from_str_major() {
    let cases: &[&[&str]] = &[
        &["C", "C", "E", "G"],
        &["C#", "C#", "F", "G#"],
        &["Db", "Db", "F", "Ab"],
        &["D", "D", "F#", "A"],
        &["D#", "D#", "G", "A#"],
        &["Eb", "Eb", "G", "Bb"],
        &["E", "E", "G#", "B"],
        &["F", "F", "A", "C"],
        &["F#", "F#", "A#", "C#"],
        &["Gb", "Gb", "Bb", "Db"],
        &["G", "G", "B", "D"],
        &["G#", "G#", "C", "D#"],
        &["Ab", "Ab", "C", "Eb"],
        &["A", "A", "C#", "E"],
        &["A#", "A#", "D", "F"],
        &["Bb", "Bb", "D", "F"],
        &["B", "B", "D#", "F#"],
    ];
    for suffix in ["", "maj", "M"] {
        for case in cases {
            check_chord(&format!("{}{}", case[0], suffix), &case[1..], ChordType::Major);
        }
    }
}

#[test]
fn test_from_str_major_seventh() {
    let cases: &[&[&str]] = &[
        &["C", "C", "E", "G", "B"],
        &["C#", "C#", "F", "G#", "C"],
        &["Db", "Db", "F", "Ab", "C"],
        &["D", "D", "F#", "A", "C#"],
        &["D#", "D#", "G", "A#", "D"],
        &["Eb", "Eb", "G", "Bb", "D"],
        &["E", "E", "G#", "B", "D#"],
        &["F", "F", "A", "C", "E"],
        &["F#", "F#", "A#", "C#", "F"],
        &["Gb", "Gb", "Bb", "Db", "F"],
        &["G", "G", "B", "D", "F#"],
        &["G#", "G#", "C", "D#", "G"],
        &["Ab", "Ab", "C", "Eb", "G"],
        &["A", "A", "C#", "E", "G#"],
        &["A#", "A#", "D", "F", "A"],
        &["Bb", "Bb", "D", "F", "A"],
        &["B", "B", "D#", "F#", "A#"],
    ];
    for suffix in ["maj7", "M7"] {
        for case in cases {
            check_chord(&format!("{}{}", case[0], suffix), &case[1..], ChordType::MajorSeventh);
        }
    }
}

#[test]
fn test_from_str_major_ninth() {
    let cases: &[&[&str]] = &[
        &["C", "C", "E", "G", "B", "D"],
        &["C#", "C#", "F", "G#", "C", "D#"],
        &["Db", "Db", "F", "Ab", "C", "Eb"],
        &["D", "D", "F#", "A", "C#", "E"],
        &["D#", "D#", "G", "A#", "D", "F"],
        &["Eb", "Eb", "G", "Bb", "D", "F"],
        &["E", "E", "G#", "B", "D#", "F#"],
        &["F", "F", "A", "C", "E", "G"],
        &["F#", "F#", "A#", "C#", "F", "G#"],
        &["Gb", "Gb", "Bb", "Db", "F", "Ab"],
        &["G", "G", "B", "D", "F#", "A"],
        &["G#", "G#", "C", "D#", "G", "A#"],
        &["Ab", "Ab", "C", "Eb", "G", "Bb"],
        &["A", "A", "C#", "E", "G#", "B"],
        &["A#", "A#", "D", "F", "A", "C"],
        &["Bb", "Bb", "D", "F", "A", "C"],
        &["B", "B", "D#", "F#", "A#", "C#"],
    ];
    for suffix in ["maj9", "M9"] {
        for case in cases {
            check_chord(&format!("{}{}", case[0], suffix), &case[1..], ChordType::MajorNinth);
        }
    }
}

#[test]
fn test_from_str_major_eleventh() {
    let cases: &[&[&str]] = &[
        &["C", "C", "E", "G", "B", "D", "F"],
        &["C#", "C#", "F", "G#", "C", "D#", "F#"],
        &["Db", "Db", "F", "Ab", "C", "Eb", "Gb"],
        &["D", "D", "F#", "A", "C#", "E", "G"],
        &["D#", "D#", "G", "A#", "D", "F", "G#"],
        &["Eb", "Eb", "G", "Bb", "D", "F", "Ab"],
        &["E", "E", "G#", "B", "D#", "F#", "A"],
        &["F", "F", "A", "C", "E", "G", "A#"],
        &["F#", "F#", "A#", "C#", "F", "G#", "B"],
        &["Gb", "Gb", "Bb", "Db", "F", "Ab", "B"],
        &["G", "G", "B", "D", "F#", "A", "C"],
        &["G#", "G#", "C", "D#", "G", "A#", "C#"],
        &["Ab", "Ab", "C", "Eb", "G", "Bb", "Db"],
        &["A", "A", "C#", "E", "G#", "B", "D"],
        &["A#", "A#", "D", "F", "A", "C", "D#"],
        &["Bb", "Bb", "D", "F", "A", "C", "Eb"],
        &["B", "B", "D#", "F#", "A#", "C#", "E"],
    ];
    for suffix in ["maj11", "M11"] {
        for case in cases {
            check_chord(&format!("{}{}", case[0], suffix), &case[1..], ChordType::MajorEleventh);
        }
    }
}

#[test]
fn test_from_str_major_thirteenth() {
    let cases: &[&[&str]] = &[
        &["C", "C", "E", "G", "B", "D", "F", "A"],
        &["C#", "C#", "F", "G#", "C", "D#", "F#", "A#"],
        &["Db", "Db", "F", "Ab", "C", "Eb", "Gb", "Bb"],
        &["D", "D", "F#", "A", "C#", "E", "G", "B"],
        &["D#", "D#", "G", "A#", "D", "F", "G#", "C"],
        &["Eb", "Eb", "G", "Bb", "D", "F", "Ab", "C"],
        &["E", "E", "G#", "B", "D#", "F#", "A", "C#"],
        &["F", "F", "A", "C", "E", "G", "A#", "D"],
        &["F#", "F#", "A#", "C#", "F", "G#", "B", "D#"],
        &["Gb", "Gb", "Bb", "Db", "F", "Ab", "B", "Eb"],
        &["G", "G", "B", "D", "F#", "A", "C", "E"],
        &["G#", "G#", "C", "D#", "G", "A#", "C#", "F"],
        &["Ab", "Ab", "C", "Eb", "G", "Bb", "Db", "F"],
        &["A", "A", "C#", "E", "G#", "B", "D", "F#"],
        &["A#", "A#", "D", "F", "A", "C", "D#", "G"],
        &["Bb", "Bb", "D", "F", "A", "C", "Eb", "G"],
        &["B", "B", "D#", "F#", "A#", "C#", "E", "G#"],
    ];
    for suffix in ["maj13", "M13"] {
        for case in cases {
            check_chord(&format!("{}{}", case[0], suffix), &case[1..], ChordType::MajorThirteenth);
        }
    }
}

#[test]
fn test_from_str_major_sixth() {
    let cases: &[&[&str]] = &[
        &["C", "C", "E", "G", "A"],
        &["C#", "C#", "F", "G#", "A#"],
        &["Db", "Db", "F", "Ab", "Bb"],
        &["D", "D", "F#", "A", "B"],
        &["D#", "D#", "G", "A#", "C"],
        &["Eb", "Eb", "G", "Bb", "C"],
        &["E", "E", "G#", "B", "C#"],
        &["F", "F", "A", "C", "D"],
        &["F#", "F#", "A#", "C#", "D#"],
        &["Gb", "Gb", "Bb", "Db", "Eb"],
        &["G", "G", "B", "D", "E"],
        &["G#", "G#", "C", "D#", "F"],
        &["Ab", "Ab", "C", "Eb", "F"],
        &["A", "A", "C#", "E", "F#"],
        &["A#", "A#", "D", "F", "G"],
        &["Bb", "Bb", "D", "F", "G"],
        &["B", "B", "D#", "F#", "G#"],
    ];
    for suffix in ["6", "maj6", "M6"] {
        for case in cases {
            check_chord(&format!("{}{}", case[0], suffix), &case[1..], ChordType::MajorSixth);
        }
    }
}

#[test]
fn test_from_str_sixth_ninth() {
    let cases: &[&[&str]] = &[
        &["C", "C", "E", "G", "A", "D"],
        &["C#", "C#", "F", "G#", "A#", "D#"],
        &["Db", "Db", "F", "Ab", "Bb", "Eb"],
        &["D", "D", "F#", "A", "B", "E"],
        &["D#", "D#", "G", "A#", "C", "F"],
        &["Eb", "Eb", "G", "Bb", "C", "F"],
        &["E", "E", "G#", "B", "C#", "F#"],
        &["F", "F", "A", "C", "D", "G"],
        &["F#", "F#", "A#", "C#", "D#", "G#"],
        &["Gb", "Gb", "Bb", "Db", "Eb", "Ab"],
        &["G", "G", "B", "D", "E", "A"],
        &["G#", "G#", "C", "D#", "F", "A#"],
        &["Ab", "Ab", "C", "Eb", "F", "Bb"],
        &["A", "A", "C#", "E", "F#", "B"],
        &["A#", "A#", "D", "F", "G", "C"],
        &["Bb", "Bb", "D", "F", "G", "C"],
        &["B", "B", "D#", "F#", "G#", "C#"],
    ];
    for suffix in ["6/9", "maj6/9", "M6/9"] {
        for case in cases {
            check_chord(&format!("{}{}", case[0], suffix), &case[1..], ChordType::SixthNinth);
        }
    }
}

#[test]
fn test_from_str_dominant_seventh() {
    let cases: &[&[&str]] = &[
        &["C", "C", "E", "G", "Bb"],
        &["C#", "C#", "F", "G#", "B"],
        &["Db", "Db", "F", "Ab", "B"],
        &["D", "D", "F#", "A", "C"],
        &["D#", "D#", "G", "A#", "C#"],
        &["Eb", "Eb", "G", "Bb", "Db"],
        &["E", "E", "G#", "B", "D"],
        &["F", "F", "A", "C", "Eb"],
        &["F#", "F#", "A#", "C#", "E"],
        &["Gb", "Gb", "Bb", "Db", "E"],
        &["G", "G", "B", "D", "F"],
        &["G#", "G#", "C", "D#", "F#"],
        &["Ab", "Ab", "C", "Eb", "Gb"],
        &["A", "A", "C#", "E", "G"],
        &["A#", "A#", "D", "F", "G#"],
        &["Bb", "Bb", "D", "F", "Ab"],
        &["B", "B", "D#", "F#", "A"],
    ];
    for suffix in ["7", "dom"] {
        for case in cases {
            check_chord(&format!("{}{}", case[0], suffix), &case[1..], ChordType::DominantSeventh);
        }
    }
}

#[test]
fn test_from_str_dominant_ninth() {
    let cases: &[&[&str]] = &[
        &["C", "C", "E", "G", "Bb", "D"],
        &["C#", "C#", "F", "G#", "B", "D#"],
        &["Db", "Db", "F", "Ab", "B", "Eb"],
        &["D", "D", "F#", "A", "C", "E"],
        &["D#", "D#", "G", "A#", "C#", "F"],
        &["Eb", "Eb", "G", "Bb", "Db", "F"],
        &["E", "E", "G#", "B", "D", "F#"],
        &["F", "F", "A", "C", "Eb", "G"],
        &["F#", "F#", "A#", "C#", "E", "G#"],
        &["Gb", "Gb", "Bb", "Db", "E", "Ab"],
        &["G", "G", "B", "D", "F", "A"],
        &["G#", "G#", "C", "D#", "F#", "A#"],
        &["Ab", "Ab", "C", "Eb", "Gb", "Bb"],
        &["A", "A", "C#", "E", "G", "B"],
        &["A#", "A#", "D", "F", "G#", "C"],
        &["Bb", "Bb", "D", "F", "Ab", "C"],
        &["B", "B", "D#", "F#", "A", "C#"],
    ];
    for suffix in ["9"] {
        for case in cases {
            check_chord(&format!("{}{}", case[0], suffix), &case[1..], ChordType::DominantNinth);
        }
    }
}

#[test]
fn test_from_str_dominant_eleventh() {
    let cases: &[&[&str]] = &[
        &["C", "C", "E", "G", "Bb", "D", "F"],
        &["C#", "C#", "F", "G#", "B", "D#", "F#"],
        &["Db", "Db", "F", "Ab", "B", "Eb", "Gb"],
        &["D", "D", "F#", "A", "C", "E", "G"],
        &["D#", "D#", "G", "A#", "C#", "F", "G#"],
        &["Eb", "Eb", "G", "Bb", "Db", "F", "Ab"],
        &["E", "E", "G#", "B", "D", "F#", "A"],
        &["F", "F", "A", "C", "Eb", "G", "A#"],
        &["F#", "F#", "A#", "C#", "E", "G#", "B"],
        &["Gb", "Gb", "Bb", "Db", "E", "Ab", "B"],
        &["G", "G", "B", "D", "F", "A", "C"],
        &["G#", "G#", "C", "D#", "F#", "A#", "C#"],
        &["Ab", "Ab", "C", "Eb", "Gb", "Bb", "Db"],
        &["A", "A", "C#", "E", "G", "B", "D"],
        &["A#", "A#", "D", "F", "G#", "C", "D#"],
        &["Bb", "Bb", "D", "F", "Ab", "C", "Eb"],
        &["B", "B", "D#", "F#", "A", "C#", "E"],
    ];
    for suffix in ["11"] {
        for case in cases {
            check_chord(&format!("{}{}", case[0], suffix), &case[1..], ChordType::DominantEleventh);
        }
    }
}

#[test]
fn test_from_str_dominant_thirteenth() {
    let cases: &[&[&str]] = &[
        &["C", "C", "E", "G", "Bb", "D", "F", "A"],
        &["C#", "C#", "F", "G#", "B", "D#", "F#", "A#"],
        &["Db", "Db", "F", "Ab", "B", "Eb", "Gb", "Bb"],
        &["D", "D", "F#", "A", "C", "E", "G", "B"],
        &["D#", "D#", "G", "A#", "C#", "F", "G#", "C"],
        &["Eb", "Eb", "G", "Bb", "Db", "F", "Ab", "C"],
        &["E", "E", "G#", "B", "D", "F#", "A", "C#"],
        &["F", "F", "A", "C", "Eb", "G", "A#", "D"],
        &["F#", "F#", "A#", "C#", "E", "G#", "B", "D#"],
        &["Gb", "Gb", "Bb", "Db", "E", "Ab", "B", "Eb"],
        &["G", "G", "B", "D", "F", "A", "C", "E"],
        &["G#", "G#", "C", "D#", "F#", "A#", "C#", "F"],
        &["Ab", "Ab", "C", "Eb", "Gb", "Bb", "Db", "F"],
        &["A", "A", "C#", "E", "G", "B", "D", "F#"],
        &["A#", "A#", "D", "F", "G#", "C", "D#", "G"],
        &["Bb", "Bb", "D", "F", "Ab", "C", "Eb", "G"],
        &["B", "B", "D#", "F#", "A", "C#", "E", "G#"],
    ];
    for suffix in ["13"] {
        for case in cases {
            check_chord(&format!("{}{}", case[0], suffix), &case[1..], ChordType::DominantThirteenth);
        }
    }
}

#[test]
fn test_from_str_dominant_seventh_flat_ninth() {
    let cases: &[&[&str]] = &[
        &["C", "C", "E", "G", "Bb", "Db"],
        &["C#", "C#", "F", "G#", "B", "D"],
        &["Db", "Db", "F", "Ab", "B", "D"],
        &["D", "D", "F#", "A", "C", "Eb"],
        &["D#", "D#", "G", "A#", "C#", "E"],
        &["Eb", "Eb", "G", "Bb", "Db", "E"],
        &["E", "E", "G#", "B", "D", "F"],
        &["F", "F", "A", "C", "Eb", "F#"],
        &["F#", "F#", "A#", "C#", "E", "G"],
        &["Gb", "Gb", "Bb", "Db", "E", "G"],
        &["G", "G", "B", "D", "F", "Ab"],
        &["G#", "G#", "C", "D#", "F#", "A"],
        &["Ab", "Ab", "C", "Eb", "Gb", "A"],
        &["A", "A", "C#", "E", "G", "Bb"],
        &["A#", "A#", "D", "F", "G#", "B"],
        &["Bb", "Bb", "D", "F", "Ab", "B"],
        &["B", "B", "D#", "F#", "A", "C"],
    ];
    for suffix in ["7b9"] {
        for case in cases {
            check_chord(&format!("{}{}", case[0], suffix), &case[1..], ChordType::DominantSeventhFlatNinth);
        }
    }
}

#[test]
fn test_from_str_dominant_seventh_sharp_ninth() {
    let cases: &[&[&str]] = &[
        &["C", "C", "E", "G", "Bb", "D#"],
        &["C#", "C#", "F", "G#", "B", "E"],
        &["Db", "Db", "F", "Ab", "B", "E"],
        &["D", "D", "F#", "A", "C", "F"],
        &["D#", "D#", "G", "A#", "C#", "F#"],
        &["Eb", "Eb", "G", "Bb", "Db", "F#"],
        &["E", "E", "G#", "B", "D", "G"],
        &["F", "F", "A", "C", "Eb", "G#"],
        &["F#", "F#", "A#", "C#", "E", "A"],
        &["Gb", "Gb", "Bb", "Db", "E", "A"],
        &["G", "G", "B", "D", "F", "A#"],
        &["G#", "G#", "C", "D#", "F#", "B"],
        &["Ab", "Ab", "C", "Eb", "Gb", "B"],
        &["A", "A", "C#", "E", "G", "C"],
        &["A#", "A#", "D", "F", "G#", "C#"],
        &["Bb", "Bb", "D", "F", "Ab", "C#"],
        &["B", "B", "D#", "F#", "A", "D"],
    ];
    for suffix in ["7#9"] {
        for case in cases {
            check_chord(&format!("{}{}", case[0], suffix), &case[1..], ChordType::DominantSeventhSharpNinth);
        }
    }
}

#[test]
fn test_from_str_dominant_seventh_flat_fifth() {
    let cases: &[&[&str]] = &[
        &["C", "C", "E", "Gb", "Bb"],
        &["C#", "C#", "F", "G", "B"],
        &["Db", "Db", "F", "G", "B"],
        &["D", "D", "F#", "Ab", "C"],
        &["D#", "D#", "G", "A", "C#"],
        &["Eb", "Eb", "G", "A", "Db"],
        &["E", "E", "G#", "Bb", "D"],
        &["F", "F", "A", "B", "Eb"],
        &["F#", "F#", "A#", "C", "E"],
        &["Gb", "Gb", "Bb", "C", "E"],
        &["G", "G", "B", "Db", "F"],
        &["G#", "G#", "C", "D", "F#"],
        &["Ab", "Ab", "C", "D", "Gb"],
        &["A", "A", "C#", "Eb", "G"],
        &["A#", "A#", "D", "E", "G#"],
        &["Bb", "Bb", "D", "E", "Ab"],
        &["B", "B", "D#", "F", "A"],
    ];
    for suffix in ["7b5", "7dim5"] {
        for case in cases {
            check_chord(&format!("{}{}", case[0], suffix), &case[1..], ChordType::DominantSeventhFlatFifth);
        }
    }
}

#[test]
fn test_from_str_suspended_fourth() {
    let cases: &[&[&str]] = &[
        &["C", "C", "F", "G"],
        &["C#", "C#", "F#", "G#"],
        &["Db", "Db", "Gb", "Ab"],
        &["D", "D", "G", "A"],
        &["D#", "D#", "G#", "A#"],
        &["Eb", "Eb", "Ab", "Bb"],
        &["E", "E", "A", "B"],
        &["F", "F", "Bb", "C"],
        &["F#", "F#", "B", "C#"],
        &["Gb", "Gb", "B", "Db"],
        &["G", "G", "C", "D"],
        &["G#", "G#", "C#", "D#"],
        &["Ab", "Ab", "Db", "Eb"],
        &["A", "A", "D", "E"],
        &["A#", "A#", "D#", "F"],
        &["Bb", "Bb", "Eb", "F"],
        &["B", "B", "E", "F#"],
    ];
    for suffix in ["sus4", "sus"] {
        for case in cases {
            check_chord(&format!("{}{}", case[0], suffix), &case[1..], ChordType::SuspendedFourth);
        }
    }
}

#[test]
fn test_from_str_suspended_second() {
    let cases: &[&[&str]] = &[
        &["C", "C", "D", "G"],
        &["C#", "C#", "D#", "G#"],
        &["Db", "Db", "Eb", "Ab"],
        &["D", "D", "E", "A"],
        &["D#", "D#", "F", "A#"],
        &["Eb", "Eb", "F", "Bb"],
        &["E", "E", "F#", "B"],
        &["F", "F", "G", "C"],
        &["F#", "F#", "G#", "C#"],
        &["Gb", "Gb", "Ab", "Db"],
        &["G", "G", "A", "D"],
        &["G#", "G#", "A#", "D#"],
        &["Ab", "Ab", "Bb", "Eb"],
        &["A", "A", "B", "E"],
        &["A#", "A#", "C", "F"],
        &["Bb", "Bb", "C", "F"],
        &["B", "B", "C#", "F#"],
    ];
    for suffix in ["sus2"] {
        for case in cases {
            check_chord(&format!("{}{}", case[0], suffix), &case[1..], ChordType::SuspendedSecond);
        }
    }
}

#[test]
fn test_from_str_dominant_seventh_suspended_fourth() {
    let cases: &[&[&str]] = &[
        &["C", "C", "F", "G", "Bb"],
        &["C#", "C#", "F#", "G#", "B"],
        &["Db", "Db", "Gb", "Ab", "B"],
        &["D", "D", "G", "A", "C"],
        &["D#", "D#", "G#", "A#", "C#"],
        &["Eb", "Eb", "Ab", "Bb", "Db"],
        &["E", "E", "A", "B", "D"],
        &["F", "F", "Bb", "C", "Eb"],
        &["F#", "F#", "B", "C#", "E"],
        &["Gb", "Gb", "B", "Db", "E"],
        &["G", "G", "C", "D", "F"],
        &["G#", "G#", "C#", "D#", "F#"],
        &["Ab", "Ab", "Db", "Eb", "Gb"],
        &["A", "A", "D", "E", "G"],
        &["A#", "A#", "D#", "F", "G#"],
        &["Bb", "Bb", "Eb", "F", "Ab"],
        &["B", "B", "E", "F#", "A"],
    ];
    for suffix in ["7sus4", "7sus"] {
        for case in cases {
            check_chord(&format!("{}{}", case[0], suffix), &case[1..], ChordType::DominantSeventhSuspendedFourth);
        }
    }
}

#[test]
fn test_from_str_dominant_seventh_suspended_second() {
    let cases: &[&[&str]] = &[
        &["C", "C", "D", "G", "Bb"],
        &["C#", "C#", "D#", "G#", "B"],
        &["Db", "Db", "Eb", "Ab", "B"],
        &["D", "D", "E", "A", "C"],
        &["D#", "D#", "F", "A#", "C#"],
        &["Eb", "Eb", "F", "Bb", "Db"],
        &["E", "E", "F#", "B", "D"],
        &["F", "F", "G", "C", "Eb"],
        &["F#", "F#", "G#", "C#", "E"],
        &["Gb", "Gb", "Ab", "Db", "E"],
        &["G", "G", "A", "D", "F"],
        &["G#", "G#", "A#", "D#", "F#"],
        &["Ab", "Ab", "Bb", "Eb", "Gb"],
        &["A", "A", "B", "E", "G"],
        &["A#", "A#", "C", "F", "G#"],
        &["Bb", "Bb", "C", "F", "Ab"],
        &["B", "B", "Db", "F#", "A"],
    ];
    for suffix in ["7sus2"] {
        for case in cases {
            check_chord(&format!("{}{}", case[0], suffix), &case[1..], ChordType::DominantSeventhSuspendedSecond);
        }
    }
}

#[test]
fn test_from_str_minor() {
    let cases: &[&[&str]] = &[
        &["C", "C", "Eb", "G"],
        &["C#", "C#", "E", "G#"],
        &["Db", "Db", "E", "Ab"],
        &["D", "D", "F", "A"],
        &["D#", "D#", "F#", "A#"],
        &["Eb", "Eb", "Gb", "Bb"],
        &["E", "E", "G", "B"],
        &["F", "F", "Ab", "C"],
        &["F#", "F#", "A", "C#"],
        &["Gb", "Gb", "A", "Db"],
        &["G", "G", "Bb", "D"],
        &["G#", "G#", "B", "D#"],
        &["Ab", "Ab", "B", "Eb"],
        &["A", "A", "C", "E"],
        &["A#", "A#", "C#", "F"],
        &["Bb", "Bb", "Db", "F"],
        &["B", "B", "D", "F#"],
    ];
    for suffix in ["m", "min"] {
        for case in cases {
            check_chord(&format!("{}{}", case[0], suffix), &case[1..], ChordType::Minor);
        }
    }
}

#[test]
fn test_from_str_minor_seventh() {
    let cases: &[&[&str]] = &[
        &["C", "C", "Eb", "G", "Bb"],
        &["C#", "C#", "E", "G#", "B"],
        &["Db", "Db", "E", "Ab", "B"],
        &["D", "D", "F", "A", "C"],
        &["D#", "D#", "F#", "A#", "C#"],
        &["Eb", "Eb", "Gb", "Bb", "Db"],
        &["E", "E", "G", "B", "D"],
        &["F", "F", "Ab", "C", "Eb"],
        &["F#", "F#", "A", "C#", "E"],
        &["Gb", "Gb", "A", "Db", "E"],
        &["G", "G", "Bb", "D", "F"],
        &["G#", "G#", "B", "D#", "F#"],
        &["Ab", "Ab", "B", "Eb", "Gb"],
        &["A", "A", "C", "E", "G"],
        &["A#", "A#", "C#", "F", "G#"],
        &["Bb", "Bb", "Db", "F", "Ab"],
        &["B", "B", "D", "F#", "A"],
    ];
    for suffix in ["m7", "min7"] {
        for case in cases {
            check_chord(&format!("{}{}", case[0], suffix), &case[1..], ChordType::MinorSeventh);
        }
    }
}

#[test]
fn test_from_str_minor_major_seventh() {
    let cases: &[&[&str]] = &[
        &["C", "C", "Eb", "G", "B"],
        &["C#", "C#", "E", "G#", "C"],
        &["Db", "Db", "E", "Ab", "C"],
        &["D", "D", "F", "A", "C#"],
        &["D#", "D#", "F#", "A#", "D"],
        &["Eb", "Eb", "Gb", "Bb", "D"],
        &["E", "E", "G", "B", "D#"],
        &["F", "F", "Ab", "C", "E"],
        &["F#", "F#", "A", "C#", "F"],
        &["Gb", "Gb", "A", "Db", "F"],
        &["G", "G", "Bb", "D", "F#"],
        &["G#", "G#", "B", "D#", "G"],
        &["Ab", "Ab", "B", "Eb", "G"],
        &["A", "A", "C", "E", "G#"],
        &["A#", "A#", "C#", "F", "A"],
        &["Bb", "Bb", "Db", "F", "A"],
        &["B", "B", "D", "F#", "A#"],
    ];
    for suffix in ["mMaj7", "mM7", "minMaj7"] {
        for case in cases {
            check_chord(&format!("{}{}", case[0], suffix), &case[1..], ChordType::MinorMajorSeventh);
        }
    }
}

#[test]
fn test_from_str_minor_sixth() {
    let cases: &[&[&str]] = &[
        &["C", "C", "Eb", "G", "A"],
        &["C#", "C#", "E", "G#", "A#"],
        &["Db", "Db", "E", "Ab", "Bb"],
        &["D", "D", "F", "A", "B"],
        &["D#", "D#", "F#", "A#", "C"],
        &["Eb", "Eb", "Gb", "Bb", "C"],
        &["E", "E", "G", "B", "C#"],
        &["F", "F", "Ab", "C", "D"],
        &["F#", "F#", "A", "C#", "D#"],
        &["Gb", "Gb", "A", "Db", "Eb"],
        &["G", "G", "Bb", "D", "E"],
        &["G#", "G#", "B", "D#", "F"],
        &["Ab", "Ab", "B", "Eb", "F"],
        &["A", "A", "C", "E", "F#"],
        &["A#", "A#", "C#", "F", "G"],
        &["Bb", "Bb", "Db", "F", "G"],
        &["B", "B", "D", "F#", "G#"],
    ];
    for suffix in ["m6", "min6"] {
        for case in cases {
            check_chord(&format!("{}{}", case[0], suffix), &case[1..], ChordType::MinorSixth);
        }
    }
}

#[test]
fn test_from_str_minor_ninth() {
    let cases: &[&[&str]] = &[
        &["C", "C", "Eb", "G", "Bb", "D"],
        &["C#", "C#", "E", "G#", "B", "D#"],
        &["Db", "Db", "E", "Ab", "B", "Eb"],
        &["D", "D", "F", "A", "C", "E"],
        &["D#", "D#", "F#", "A#", "C#", "F"],
        &["Eb", "Eb", "Gb", "Bb", "Db", "F"],
        &["E", "E", "G", "B", "D", "F#"],
        &["F", "F", "Ab", "C", "Eb", "G"],
        &["F#", "F#", "A", "C#", "E", "G#"],
        &["Gb", "Gb", "A", "Db", "E", "Ab"],
        &["G", "G", "Bb", "D", "F", "A"],
        &["G#", "G#", "B", "D#", "F#", "A#"],
        &["Ab", "Ab", "B", "Eb", "Gb", "Bb"],
        &["A", "A", "C", "E", "G", "B"],
        &["A#", "A#", "C#", "F", "G#", "C"],
        &["Bb", "Bb", "Db", "F", "Ab", "C"],
        &["B", "B", "D", "F#", "A", "C#"],
    ];
    for suffix in ["m9", "min9"] {
        for case in cases {
            check_chord(&format!("{}{}", case[0], suffix), &case[1..], ChordType::MinorNinth);
        }
    }
}

#[test]
fn test_from_str_minor_eleventh() {
    let cases: &[&[&str]] = &[
        &["C", "C", "Eb", "G", "Bb", "D", "F"],
        &["C#", "C#", "E", "G#", "B", "D#", "F#"],
        &["Db", "Db", "E", "Ab", "B", "Eb", "Gb"],
        &["D", "D", "F", "A", "C", "E", "G"],
        &["D#", "D#", "F#", "A#", "C#", "F", "G#"],
        &["Eb", "Eb", "Gb", "Bb", "Db", "F", "Ab"],
        &["E", "E", "G", "B", "D", "F#", "A"],
        &["F", "F", "Ab", "C", "Eb", "G", "A#"],
        &["F#", "F#", "A", "C#", "E", "G#", "B"],
        &["Gb", "Gb", "A", "Db", "E", "Ab", "B"],
        &["G", "G", "Bb", "D", "F", "A", "C"],
        &["G#", "G#", "B", "D#", "F#", "A#", "C#"],
        &["Ab", "Ab", "B", "Eb", "Gb", "Bb", "Db"],
        &["A", "A", "C", "E", "G", "B", "D"],
        &["A#", "A#", "C#", "F", "G#", "C", "D#"],
        &["Bb", "Bb", "Db", "F", "Ab", "C", "Eb"],
        &["B", "B", "D", "F#", "A", "C#", "E"],
    ];
    for suffix in ["m11", "min11"] {
        for case in cases {
            check_chord(&format!("{}{}", case[0], suffix), &case[1..], ChordType::MinorEleventh);
        }
    }
}

#[test]
fn test_from_str_minor_thirteenth() {
    let cases: &[&[&str]] = &[
        &["C", "C", "Eb", "G", "Bb", "D", "F", "A"],
        &["C#", "C#", "E", "G#", "B", "D#", "F#", "A#"],
        &["Db", "Db", "E", "Ab", "B", "Eb", "Gb", "Bb"],
        &["D", "D", "F", "A", "C", "E", "G", "B"],
        &["D#", "D#", "F#", "A#", "C#", "F", "G#", "C"],
        &["Eb", "Eb", "Gb", "Bb", "Db", "F", "Ab", "C"],
        &["E", "E", "G", "B", "D", "F#", "A", "C#"],
        &["F", "F", "Ab", "C", "Eb", "G", "A#", "D"],
        &["F#", "F#", "A", "C#", "E", "G#", "B", "D#"],
        &["Gb", "Gb", "A", "Db", "E", "Ab", "B", "Eb"],
        &["G", "G", "Bb", "D", "F", "A", "C", "E"],
        &["G#", "G#", "B", "D#", "F#", "A#", "C#", "F"],
        &["Ab", "Ab", "B", "Eb", "Gb", "Bb", "Db", "F"],
        &["A", "A", "C", "E", "G", "B", "D", "F#"],
        &["A#", "A#", "C#", "F", "G#", "C", "D#", "G"],
        &["Bb", "Bb", "Db", "F", "Ab", "C", "Eb", "G"],
        &["B", "B", "D", "F#", "A", "C#", "E", "G#"],
    ];
    for suffix in ["m13", "min13"] {
        for case in cases {
            check_chord(&format!("{}{}", case[0], suffix), &case[1..], ChordType::MinorThirteenth);
        }
    }
}

#[test]
fn test_from_str_diminished() {
    let cases: &[&[&str]] = &[
        &["C", "C", "Eb", "Gb"],
        &["C#", "C#", "E", "G"],
        &["Db", "Db", "E", "G"],
        &["D", "D", "F", "Ab"],
        &["D#", "D#", "F#", "A"],
        &["Eb", "Eb", "Gb", "A"],
        &["E", "E", "G", "Bb"],
        &["F", "F", "Ab", "B"],
        &["F#", "F#", "A", "C"],
        &["Gb", "Gb", "A", "C"],
        &["G", "G", "Bb", "Db"],
        &["G#", "G#", "B", "D"],
        &["Ab", "Ab", "B", "D"],
        &["A", "A", "C", "Eb"],
        &["A#", "A#", "C#", "E"],
        &["Bb", "Bb", "Db", "E"],
        &["B", "B", "D", "F"],
    ];
    for suffix in ["dim", "o"] {
        for case in cases {
            check_chord(&format!("{}{}", case[0], suffix), &case[1..], ChordType::Diminished);
        }
    }
}

#[test]
fn test_from_str_diminished_seventh() {
    let cases: &[&[&str]] = &[
        &["C", "C", "Eb", "Gb", "A"],
        &["C#", "C#", "E", "G", "Bb"],
        &["Db", "Db", "E", "G", "Bb"],
        &["D", "D", "F", "Ab", "B"],
        &["D#", "D#", "F#", "A", "C"],
        &["Eb", "Eb", "Gb", "A", "C"],
        &["E", "E", "G", "Bb", "Db"],
        &["F", "F", "Ab", "B", "D"],
        &["F#", "F#", "A", "C", "Eb"],
        &["Gb", "Gb", "A", "C", "Eb"],
        &["G", "G", "Bb", "Db", "E"],
        &["G#", "G#", "B", "D", "F"],
        &["Ab", "Ab", "B", "D", "F"],
        &["A", "A", "C", "Eb", "Gb"],
        &["A#", "A#", "C#", "E", "G"],
        &["Bb", "Bb", "Db", "E", "G"],
        &["B", "B", "D", "F", "Ab"],
    ];
    for suffix in ["dim7", "o7"] {
        for case in cases {
            check_chord(&format!("{}{}", case[0], suffix), &case[1..], ChordType::DiminishedSeventh);
        }
    }
}

#[test]
fn test_from_str_half_diminished_seventh() {
    let cases: &[&[&str]] = &[
        &["C", "C", "Eb", "Gb", "Bb"],
        &["C#", "C#", "E", "G", "B"],
        &["Db", "Db", "E", "G", "B"],
        &["D", "D", "F", "Ab", "C"],
        &["D#", "D#", "F#", "A", "C#"],
        &["Eb", "Eb", "Gb", "A", "Db"],
        &["E", "E", "G", "Bb", "D"],
        &["F", "F", "Ab", "B", "Eb"],
        &["F#", "F#", "A", "C", "E"],
        &["Gb", "Gb", "A", "C", "E"],
        &["G", "G", "Bb", "Db", "F"],
        &["G#", "G#", "B", "D", "F#"],
        &["Ab", "Ab", "B", "D", "Gb"],
        &["A", "A", "C", "Eb", "G"],
        &["A#", "A#", "C#", "E", "G#"],
        &["Bb", "Bb", "Db", "E", "Ab"],
        &["B", "B", "D", "F", "A"],
    ];
    for suffix in ["m7b5", "ø", "ø7"] {
        for case in cases {
            check_chord(&format!("{}{}", case[0], suffix), &case[1..], ChordType::HalfDiminishedSeventh);
        }
    }
}

#[test]
fn test_from_str_fifth() {
    let cases: &[&[&str]] = &[
        &["C", "C", "G"],
        &["C#", "C#", "G#"],
        &["Db", "Db", "Ab"],
        &["D", "D", "A"],
        &["D#", "D#", "A#"],
        &["Eb", "Eb", "Bb"],
        &["E", "E", "B"],
        &["F", "F", "C"],
        &["F#", "F#", "C#"],
        &["Gb", "Gb", "Db"],
        &["G", "G", "D"],
        &["G#", "G#", "D#"],
        &["Ab", "Ab", "Eb"],
        &["A", "A", "E"],
        &["A#", "A#", "F"],
        &["Bb", "Bb", "F"],
        &["B", "B", "F#"],
    ];
    for suffix in ["5"] {
        for case in cases {
            check_chord(&format!("{}{}", case[0], suffix), &case[1..], ChordType::Fifth);
        }
    }
}

#[test]
fn test_from_str_augmented() {
    let cases: &[&[&str]] = &[
        &["C", "C", "E", "G#"],
        &["C#", "C#", "F", "A"],
        &["Db", "Db", "F", "A"],
        &["D", "D", "F#", "A#"],
        &["D#", "D#", "G", "B"],
        &["Eb", "Eb", "G", "B"],
        &["E", "E", "G#", "C"],
        &["F", "F", "A", "C#"],
        &["F#", "F#", "A#", "D"],
        &["Gb", "Gb", "Bb", "D"],
        &["G", "G", "B", "D#"],
        &["G#", "G#", "C", "E"],
        &["Ab", "Ab", "C", "E"],
        &["A", "A", "C#", "F"],
        &["A#", "A#", "D", "F#"],
        &["Bb", "Bb", "D", "F#"],
        &["B", "B", "D#", "G"],
    ];
    for suffix in ["aug", "+"] {
        for case in cases {
            check_chord(&format!("{}{}", case[0], suffix), &case[1..], ChordType::Augmented);
        }
    }
}

#[test]
fn test_from_str_augmented_seventh() {
    let cases: &[&[&str]] = &[
        &["C", "C", "E", "G#", "Bb"],
        &["C#", "C#", "F", "A", "B"],
        &["Db", "Db", "F", "A", "B"],
        &["D", "D", "F#", "A#", "C"],
        &["D#", "D#", "G", "B", "C#"],
        &["Eb", "Eb", "G", "B", "Db"],
        &["E", "E", "G#", "C", "D"],
        &["F", "F", "A", "C#", "Eb"],
        &["F#", "F#", "A#", "D", "E"],
        &["Gb", "Gb", "Bb", "D", "E"],
        &["G", "G", "B", "D#", "F"],
        &["G#", "G#", "C", "E", "F#"],
        &["Ab", "Ab", "C", "E", "Gb"],
        &["A", "A", "C#", "F", "G"],
        &["A#", "A#", "D", "F#", "G#"],
        &["Bb", "Bb", "D", "F#", "Ab"],
        &["B", "B", "D#", "G", "A"],
    ];
    for suffix in ["aug7", "+7", "7#5"] {
        for case in cases {
            check_chord(&format!("{}{}", case[0], suffix), &case[1..], ChordType::AugmentedSeventh);
        }
    }
}

#[test]
fn test_from_str_augmented_major_seventh() {
    let cases: &[&[&str]] = &[
        &["C", "C", "E", "G#", "B"],
        &["C#", "C#", "F", "A", "C"],
        &["Db", "Db", "F", "A", "C"],
        &["D", "D", "F#", "A#", "C#"],
        &["D#", "D#", "G", "B", "D"],
        &["Eb", "Eb", "G", "B", "D"],
        &["E", "E", "G#", "C", "D#"],
        &["F", "F", "A", "C#", "E"],
        &["F#", "F#", "A#", "D", "F"],
        &["Gb", "Gb", "Bb", "D", "F"],
        &["G", "G", "B", "D#", "F#"],
        &["G#", "G#", "C", "E", "G"],
        &["Ab", "Ab", "C", "E", "G"],
        &["A", "A", "C#", "F", "G#"],
        &["A#", "A#", "D", "F#", "A"],
        &["Bb", "Bb", "D", "F#", "A"],
        &["B", "B", "D#", "G", "A#"],
    ];
    for suffix in ["augMaj7", "+M7"] {
        for case in cases {
            check_chord(&format!("{}{}", case[0], suffix), &case[1..], ChordType::AugmentedMajorSeventh);
        }
    }
}

#[test]
fn test_from_str_added_ninth() {
    let cases: &[&[&str]] = &[
        &["C", "C", "E", "G", "D"],
        &["C#", "C#", "F", "G#", "D#"],
        &["Db", "Db", "F", "Ab", "Eb"],
        &["D", "D", "F#", "A", "E"],
        &["D#", "D#", "G", "A#", "F"],
        &["Eb", "Eb", "G", "Bb", "F"],
        &["E", "E", "G#", "B", "F#"],
        &["F", "F", "A", "C", "G"],
        &["F#", "F#", "A#", "C#", "G#"],
        &["Gb", "Gb", "Bb", "Db", "Ab"],
        &["G", "G", "B", "D", "A"],
        &["G#", "G#", "C", "D#", "A#"],
        &["Ab", "Ab", "C", "Eb", "Bb"],
        &["A", "A", "C#", "E", "B"],
        &["A#", "A#", "D", "F", "C"],
        &["Bb", "Bb", "D", "F", "C"],
        &["B", "B", "D#", "F#", "C#"],
    ];
    for suffix in ["add9", "add2"] {
        for case in cases {
            check_chord(&format!("{}{}", case[0], suffix), &case[1..], ChordType::AddedNinth);
        }
    }
}

#[test]
fn test_from_str_added_fourth() {
    let cases: &[&[&str]] = &[
        &["C", "C", "E", "F", "G"],
        &["C#", "C#", "F", "F#", "G#"],
        &["Db", "Db", "F", "Gb", "Ab"],
        &["D", "D", "F#", "G", "A"],
        &["D#", "D#", "G", "G#", "A#"],
        &["Eb", "Eb", "G", "Ab", "Bb"],
        &["E", "E", "G#", "A", "B"],
        &["F", "F", "A", "Bb", "C"],
        &["F#", "F#", "A#", "B", "C#"],
        &["Gb", "Gb", "Bb", "B", "Db"],
        &["G", "G", "B", "C", "D"],
        &["G#", "G#", "C", "C#", "D#"],
        &["Ab", "Ab", "C", "Db", "Eb"],
        &["A", "A", "C#", "D", "E"],
        &["A#", "A#", "D", "D#", "F"],
        &["Bb", "Bb", "D", "Eb", "F"],
        &["B", "B", "D#", "E", "F#"],
    ];
    for suffix in ["add4"] {
        for case in cases {
            check_chord(&format!("{}{}", case[0], suffix), &case[1..], ChordType::AddedFourth);
        }
    }
}

#[test]
fn test_from_str_fail() {
    for s in ["Z", "c", "ABC", "C#mb5", "C#mbla", "CmMaj", "CmMaj7b5"] {
        assert!(Chord::from_str(s).is_err(), "{}", s);
    }
}
