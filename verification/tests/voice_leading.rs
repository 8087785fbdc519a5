use ukebox::{ChordSequence, Distance, Tuning, Voicing, VoicingConfig, VoicingGraph};

fn chord_seq(s: &str) -> ChordSequence {
    ChordSequence::from_str(s).unwrap()
}

fn best_path(s: &str, tuning: Tuning) -> (Vec<Vec<u8>>, Distance) {
    let config = VoicingConfig { tuning, ..Default::default() };
    let mut graph = VoicingGraph::new(config);
    graph.add(&chord_seq(s));
    let paths = graph.paths(1).unwrap();
    assert_eq!(paths.len(), 1);
    let (voicings, dist) = &paths[0];
    (voicings.iter().map(|v: &Voicing| v.frets()).collect(), *dist)
}

#[test]
fn test_voice_leading_c_tuning() {
    let (frets, _) = best_path("C F G", Tuning::C);
    assert_eq!(frets, vec![vec![0, 0, 0, 3], vec![2, 0, 1, 3], vec![0, 2, 3, 2]]);
}

#[test]
fn test_voice_leading_d_tuning() {
    let (frets, dist) = best_path("C F G", Tuning::D);
    assert_eq!(frets, vec![vec![3, 2, 1, 1], vec![3, 3, 3, 1], vec![2, 0, 1, 0]]);
    // 3 semitones from C to F, 7 from F to G.
    assert_eq!(dist.semitone_distance(), 10);
}

#[test]
fn test_voice_leading_single_chord_lowest_position() {
    let (frets, dist) = best_path("C", Tuning::C);
    assert_eq!(frets, vec![vec![0, 0, 0, 3]]);
    assert_eq!(dist, Distance::new(0, 0));
}

#[test]
fn test_voice_leading_empty_sequence() {
    let mut graph = VoicingGraph::new(VoicingConfig::default());
    graph.add(&ChordSequence::from_chords(vec![]));
    let paths = graph.paths(3).unwrap();
    assert_eq!(paths.len(), 1);
    assert!(paths[0].0.is_empty());
    assert_eq!(paths[0].1, Distance::new(0, 0));
}

#[test]
fn test_voice_leading_ranked_lightest_first() {
    let config = VoicingConfig::default();
    let mut graph = VoicingGraph::new(config);
    graph.add(&chord_seq("C G"));
    let paths = graph.paths(10).unwrap();
    assert_eq!(paths.len(), 10);
    for w in paths.windows(2) {
        assert!(w[0].1 <= w[1].1);
    }
    for (voicings, _) in &paths {
        assert_eq!(voicings.len(), 2);
    }
    assert!(graph.paths(0).unwrap().is_empty());
}

#[test]
fn test_voice_leading_distance_of_best_path() {
    let (_, dist) = best_path("C F", Tuning::C);
    // [0, 0, 0, 3] to [2, 0, 1, 3]: two and one frets moved.
    assert_eq!(dist.semitone_distance(), 3);
}

#[test]
fn test_voice_leading_chord_without_voicing() {
    // With open strings only, F cannot be played: the start node has no way
    // on and is pruned, and the one node left in front of the end node is
    // a voicing of C6.
    let config = VoicingConfig { max_fret: 0, ..Default::default() };
    let mut graph = VoicingGraph::new(config);
    graph.add(&chord_seq("F C6"));
    let paths = graph.paths(3).unwrap();
    assert_eq!(paths.len(), 1);
    assert!(paths[0].0.is_empty());
    assert_eq!(paths[0].1, Distance::new(0, 0));
}

#[test]
fn test_best_voice_leading_no_heavier_than_any_chain() {
    for s in ["C F G", "Am Dm E7", "G C"] {
        let config = VoicingConfig::default();
        let (_, best) = best_path(s, config.tuning);
        let seq = chord_seq(s);
        let chords = seq.chords();
        let lists: Vec<Vec<Voicing>> = chords.iter().map(|c| c.voicings(config)).collect();
        // Walk every chain of voicings, each step within 10 semitones.
        let mut chains: Vec<(Vec<Voicing>, u32, u32)> = lists[0].iter().map(|v| (vec![*v], 0, 0)).collect();
        for list in &lists[1..] {
            let mut next = vec![];
            for (chain, st, fi) in &chains {
                let last = *chain.last().unwrap();
                for v in list {
                    let d = last.distance(*v);
                    if d.semitone_distance() <= 10 {
                        let mut c = chain.clone();
                        c.push(*v);
                        next.push((c, st + d.semitone_distance() as u32, fi + d.fingering_distance() as u32));
                    }
                }
            }
            chains = next;
        }
        assert!(!chains.is_empty(), "{}", s);
        for (_, st, fi) in &chains {
            let b = (best.semitone_distance() as u32, best.fingering_distance() as u32);
            assert!(b <= (*st, *fi), "{}: {:?} {:?}", s, b, (st, fi));
        }
    }
}
