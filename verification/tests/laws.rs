use ukebox::{Chord, ChordType, FretPattern, Note, Tuning, Voicing, VoicingConfig};

const ROOTS: [&str; 17] = [
    "C", "C#", "Db", "D", "D#", "Eb", "E", "F", "F#", "Gb", "G", "G#", "Ab", "A", "A#", "Bb", "B",
];

#[test]
fn test_every_symbol_names_its_chord_type() {
    for ct in ChordType::values() {
        for sym in ct.symbols() {
            assert_eq!(ChordType::from_str(sym).unwrap(), ct, "symbol {:?}", sym);
        }
    }
}

#[test]
fn test_every_chord_name_parses_back() {
    for root in ROOTS {
        let note = Note::from_str(root).unwrap();
        for ct in ChordType::values() {
            for sym in ct.symbols() {
                let chord = Chord::from_str(&format!("{}{}", root, sym)).unwrap();
                assert_eq!(chord.chord_type, ct);
                assert_eq!(chord.root.to_string(), note.to_string());
            }
        }
    }
}

#[test]
fn test_up_then_down_gives_same_note() {
    for root in ROOTS {
        let note = Note::from_str(root).unwrap();
        for n in 0..30u8 {
            assert_eq!(note.add_semitones(n).sub_semitones(n), note);
            assert_eq!(note.sub_semitones(n).add_semitones(n), note);
        }
    }
}

#[test]
fn test_voicings_spell_the_chord_within_bounds_sorted() {
    let config = VoicingConfig { min_fret: 2, max_fret: 9, max_span: 3, tuning: Tuning::G };
    for name in ["C", "Dm7", "E7", "F#dim", "Bbmaj7", "Gsus4"] {
        let chord = Chord::from_str(name).unwrap();
        let voicings = chord.voicings(config);
        assert!(!voicings.is_empty(), "{}", name);
        for v in &voicings {
            assert!(v.spells_out(&chord));
            assert!(v.get_span() <= config.max_span);
            for f in v.frets() {
                assert!(config.min_fret <= f && f <= config.max_fret);
            }
        }
        for w in voicings.windows(2) {
            assert!(!w[1].lt(&w[0]));
        }
    }
}

#[test]
fn test_chords_of_a_voicing_ordered_by_root() {
    for frets in [[0, 0, 0, 3], [2, 0, 1, 0], [0, 3, 3, 3], [1, 2, 1, 2], [0, 2, 0, 1]] {
        let v = Voicing::new(FretPattern::from_frets(frets), Tuning::C);
        let chords = v.get_chords();
        for w in chords.windows(2) {
            assert!(w[0].root.pitch_class.to_int() < w[1].root.pitch_class.to_int());
        }
    }
}

#[test]
fn test_chord_contains() {
    let c = Chord::from_str("C").unwrap();
    assert!(c.contains(Note::from_str("E").unwrap()));
    assert!(c.contains(Note::from_str("G").unwrap()));
    assert!(!c.contains(Note::from_str("F").unwrap()));
    let cs = Chord::from_str("C#").unwrap();
    assert!(cs.contains(Note::from_str("Db").unwrap()));
    assert!(cs.contains(Note::from_str("F").unwrap()));
}

#[test]
fn test_distance_to_itself_and_back() {
    let patterns: [[u8; 4]; 5] = [[0, 0, 0, 3], [2, 2, 2, 0], [5, 4, 3, 3], [0, 2, 3, 2], [4, 4, 4, 2]];
    for a in patterns {
        let va = Voicing::new(FretPattern::from_frets(a), Tuning::C);
        let d = va.distance(va);
        assert_eq!((d.semitone_distance(), d.fingering_distance()), (0, 0));
        for b in patterns {
            let vb = Voicing::new(FretPattern::from_frets(b), Tuning::C);
            assert_eq!(va.distance(vb), vb.distance(va), "{:?} {:?}", a, b);
        }
    }
}

#[test]
fn test_barre_needs_three_strings_two_on_the_lowest_fret() {
    for a in 0..6u8 {
        for b in 0..6u8 {
            for c in 0..6u8 {
                for d in 0..6u8 {
                    let f = [a, b, c, d];
                    let v = Voicing::new(FretPattern::from_frets(f), Tuning::C);
                    if v.has_barre() {
                        let min = v.get_min_pressed_fret();
                        assert!(v.count_pressed_strings() >= 3, "{:?}", f);
                        assert!(f.iter().filter(|x| **x == min).count() >= 2, "{:?}", f);
                        let first = f.iter().position(|x| *x == min).unwrap();
                        assert!(f[first..].iter().all(|x| *x != 0), "{:?}", f);
                    }
                }
            }
        }
    }
}

#[test]
fn test_barre_kept_when_moved_up() {
    for f in [[2u8, 2, 2, 2], [0, 2, 3, 2], [2, 3, 2, 0], [1, 1, 1, 4], [0, 1, 1, 1], [3, 3, 3, 5], [2, 0, 1, 0]] {
        let v = Voicing::new(FretPattern::from_frets(f), Tuning::C);
        for k in 1..8u8 {
            let g = f.map(|x| if x == 0 { 0 } else { x + k });
            let w = Voicing::new(FretPattern::from_frets(g), Tuning::C);
            assert_eq!(w.has_barre(), v.has_barre(), "{:?} {:?}", f, g);
        }
    }
}

#[test]
fn test_finger_order() {
    for a in 0..6u8 {
        for b in 0..6u8 {
            for c in 0..6u8 {
                for d in 0..6u8 {
                    let f = [a, b, c, d];
                    let v = Voicing::new(FretPattern::from_frets(f), Tuning::C);
                    let r = v.fingers_on_strings();
                    let barre = v.has_barre();
                    let min = v.get_min_pressed_fret();
                    for i in 0..4 {
                        assert_eq!(r[i] == 0, f[i] == 0, "{:?} {:?}", f, r);
                        assert!(r[i] <= 4, "{:?} {:?}", f, r);
                        if barre && f[i] == min {
                            assert_eq!(r[i], 1, "{:?} {:?}", f, r);
                        }
                        for j in 0..4 {
                            if f[i] != 0 && f[i] < f[j] {
                                assert!(r[i] < r[j], "{:?} {:?}", f, r);
                            }
                            if !barre && i != j && f[i] != 0 && f[j] != 0 {
                                assert_ne!(r[i], r[j], "{:?} {:?}", f, r);
                            }
                        }
                    }
                }
            }
        }
    }
}

#[test]
fn test_voicings_strictly_increasing() {
    for name in ["C", "Am", "G7", "F#dim7", "Bbmaj7", "Dsus2", "C13", "Ebm9"] {
        let chord = Chord::from_str(name).unwrap();
        for tuning in [Tuning::C, Tuning::D, Tuning::G] {
            let config = VoicingConfig { min_fret: 0, max_fret: 12, max_span: 4, tuning };
            let voicings = chord.voicings(config);
            for i in 0..voicings.len() {
                for j in i + 1..voicings.len() {
                    assert!(voicings[i].lt(&voicings[j]), "{} {:?} {:?}", name, voicings[i].frets(), voicings[j].frets());
                    assert_ne!(voicings[i].frets(), voicings[j].frets());
                }
            }
        }
    }
}

#[test]
fn test_semitone_distance_laws() {
    let patterns: [[u8; 4]; 6] = [[0, 0, 0, 3], [2, 0, 1, 0], [3, 2, 1, 1], [5, 4, 3, 3], [0, 0, 0, 0], [7, 7, 7, 7]];
    let v = |f: [u8; 4]| Voicing::new(FretPattern::from_frets(f), Tuning::C);
    assert_eq!(v([0, 0, 0, 3]).semitone_distance(v([2, 0, 1, 0])), 6);
    assert_eq!(v([3, 2, 1, 1]).semitone_distance(v([5, 4, 3, 3])), 8);
    for a in patterns {
        for b in patterns {
            let d = v(a).semitone_distance(v(b));
            assert_eq!(d, v(b).semitone_distance(v(a)));
            assert_eq!(d == 0, a == b);
            for c in patterns {
                assert!(v(a).semitone_distance(v(c)) <= d + v(b).semitone_distance(v(c)));
            }
        }
    }
}

#[test]
fn test_voicings_complete() {
    let config = VoicingConfig { min_fret: 0, max_fret: 12, max_span: 4, tuning: Tuning::C };
    for name in ["C", "Am", "G7", "Db", "F#m"] {
        let chord = Chord::from_str(name).unwrap();
        let found: Vec<Vec<u8>> = chord.voicings(config).iter().map(|v| v.frets()).collect();
        for a in 0..13u8 {
            for b in 0..13u8 {
                for c in 0..13u8 {
                    for d in 0..13u8 {
                        let v = Voicing::new(FretPattern::from_frets([a, b, c, d]), Tuning::C);
                        if v.spells_out(&chord) && v.get_span() <= config.max_span {
                            assert!(found.contains(&vec![a, b, c, d]), "{} {:?}", name, [a, b, c, d]);
                        }
                    }
                }
            }
        }
    }
}
