use ukebox::{Chord, ChordDiagram, FretPattern, Tuning, Voicing};

fn diagram(frets: [u8; 4], tuning: Tuning) -> ChordDiagram {
    let v = Voicing::new(FretPattern::from_frets(frets), tuning);
    let s = v.uke_strings();
    ChordDiagram::new([s[0], s[1], s[2], s[3]], 4)
}

#[test]
fn test_diagram_c_open() {
    let d = diagram([0, 0, 0, 3], Tuning::C);
    assert_eq!(
        d.to_string(),
        "A  ||---|---|-o-|---|- C\nE o||---|---|---|---|- E\nC o||---|---|---|---|- C\nG o||---|---|---|---|- G\n"
    );
}

#[test]
fn test_diagram_c_higher_up() {
    let d = diagram([5, 4, 3, 3], Tuning::C);
    assert_eq!(
        d.to_string(),
        "A  -|-o-|---|---|---|- C\nE  -|-o-|---|---|---|- G\nC  -|---|-o-|---|---|- E\nG  -|---|---|-o-|---|- C\n      3\n"
    );
}

#[test]
fn test_diagram_c_sharp() {
    let d = diagram([1, 1, 1, 4], Tuning::C);
    assert_eq!(
        d.to_string(),
        "A  ||---|---|---|-o-|- C#\nE  ||-o-|---|---|---|- F\nC  ||-o-|---|---|---|- C#\nG  ||-o-|---|---|---|- G#\n"
    );
}

#[test]
fn test_diagram_d_tuning_higher_up() {
    let d = diagram([5, 7, 8, 7], Tuning::D);
    assert_eq!(
        d.to_string(),
        "B   -|---|---|-o-|---|- F#\nF#  -|---|---|---|-o-|- D\nD   -|---|---|-o-|---|- A\nA   -|-o-|---|---|---|- D\n       5\n"
    );
}

#[test]
fn test_diagram_frets_and_depicts() {
    let d = diagram([0, 0, 0, 3], Tuning::C);
    assert_eq!(d.get_min_fret(), 3);
    assert_eq!(d.get_max_fret(), 3);
    assert_eq!(d.get_span(), 0);
    assert_eq!(d.get_base_fret(), 1);
    assert_eq!(d.frets(), vec![0, 0, 0, 3]);
    assert!(d.depicts(&Chord::from_str("C").unwrap()));
    assert!(!d.depicts(&Chord::from_str("Cm").unwrap()));
    let open = diagram([0, 0, 0, 0], Tuning::C);
    assert_eq!(open.get_min_fret(), 0);
}
