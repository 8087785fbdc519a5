//! Chords: a root note, a chord type and the notes they make up.

use vstd::prelude::*;
use vstd::string::StringExecFns;

use crate::chord_type::{chord_type_of_pitches, chord_type_of_symbol, law_symbol_names_type, lemma_has_symbol, ChordType};
use crate::interval::Interval;
use crate::note::{lemma_code_of_named, lemma_parse_name_of_code, name_of_code, note_code_of_chars, note_of_code, parse_note_name, Note};
use crate::pitch_class::PitchClass;
use crate::text::chars_of;
use crate::combinations::{cartesian_product, lemma_product_members, product};
use crate::voicing::{insert_sorted, lemma_sort_voicings_members, lemma_sort_voicings_sorted, voicings_sorted, lemma_view_eq, lemma_voicing_len, lemma_voicing_of, sort_voicings, voicing_of, Voicing};
use crate::{FretID, Semitones, UkeString, VoicingConfig, STRING_COUNT};

verus! {

/// Error for strings that cannot be parsed into chords.
#[derive(Debug)]
pub struct ParseChordError {
    pub name: String,
}

impl ParseChordError {
    /// The error message.
    pub fn to_string(&self) -> (s: String)
        ensures
            s@ == "Could not parse chord name \""@ + self.name@ + "\""@,
    {
        crate::text::quoted_message("Could not parse chord name \"", &self.name)
    }
}

/// The intervals of a chord type that are played on the instrument: the
/// required ones first, then the optional ones, as many as there are strings.
pub open spec fn played_intervals(ct: ChordType) -> Seq<Interval> {
    let all = ct.required_seq() + ct.optional_seq();
    if all.len() > STRING_COUNT {
        all.take(STRING_COUNT as int)
    } else {
        all
    }
}

/// The note of the root followed by a chord type's symbol: the first `i`
/// characters name the root, the rest is a symbol of the chord type.
pub open spec fn split_chord_name(s: Seq<char>, i: int) -> Option<(Note, ChordType)> {
    if s.len() >= i && parse_note_name(s.take(i)) is Some && chord_type_of_symbol(s.skip(i)) is Some {
        Some(
            (
                Note::of_parts(note_of_code(parse_note_name(s.take(i)).unwrap())),
                chord_type_of_symbol(s.skip(i)).unwrap(),
            ),
        )
    } else {
        None
    }
}

/// The root and chord type named by a chord name such as "C#m7": a root of two
/// characters is tried first, then a root of one character.
pub open spec fn parse_chord(s: Seq<char>) -> Option<(Note, ChordType)> {
    if split_chord_name(s, 2) is Some {
        split_chord_name(s, 2)
    } else {
        split_chord_name(s, 1)
    }
}

/// The ways to play the notes `played` on a string with root `root` between
/// frets `min` and `max`: each note at the fret where it first occurs above
/// the root and one octave higher, in the order of the notes.
pub open spec fn fret_candidates(played: Seq<Note>, root: Note, min: FretID, max: FretID) -> Seq<UkeString>
    decreases played.len(),
{
    if played.len() == 0 {
        Seq::empty()
    } else {
        let prev = fret_candidates(played.drop_last(), root, min, max);
        let n = played.last();
        let d = (n.pitch_class.value() - root.pitch_class.value()) % 12;
        let a = if min <= d <= max {
            prev.push((root, d as u8, n))
        } else {
            prev
        };
        if min <= d + 12 <= max {
            a.push((root, (d + 12) as u8, n))
        } else {
            a
        }
    }
}

/// Every candidate is played on the given root, below fret 24, with one of the given notes.
pub proof fn lemma_fret_candidates(played: Seq<Note>, root: Note, min: FretID, max: FretID)
    ensures
        forall|k: int|
            0 <= k < fret_candidates(played, root, min, max).len() ==> {
                let u = #[trigger] fret_candidates(played, root, min, max)[k];
                &&& u.0 == root
                &&& u.1 < 24
                &&& min <= u.1 <= max
                &&& played.contains(u.2)
            },
    decreases played.len(),
{
    if played.len() > 0 {
        lemma_fret_candidates(played.drop_last(), root, min, max);
        let prev = fret_candidates(played.drop_last(), root, min, max);
        assert forall|k: int| 0 <= k < prev.len() implies played.contains(#[trigger] prev[k].2) by {
            let j = choose|j: int| 0 <= j < played.drop_last().len() && played.drop_last()[j] == prev[k].2;
            assert(played[j] == prev[k].2);
        }
        assert(played[played.len() - 1] == played.last());
    }
}

/// A chord's name, the name of its root followed by any symbol of its chord
/// type, is read back as that root and chord type.
pub proof fn law_chord_name_parses(root: Note, ct: ChordType, j: int)
    requires
        root.is_named(),
        0 <= j < ct.symbol_seq().len(),
    ensures
        parse_chord(root.name() + ct.symbol_seq()[j]) == Some((root, ct)),
{
    let k = choose|k: nat| k < 17 && note_of_code(k) == (root.pitch_class, root.staff_position);
    lemma_code_of_named(k);
    lemma_parse_name_of_code(k);
    let name = name_of_code(k);
    assert(root.name() == name);
    let sym = ct.symbol_seq()[j];
    law_symbol_names_type(ct, j);
    lemma_has_symbol(ct, sym);
    assert(ct.symbol_seq().contains(sym));
    let s = name + sym;
    assert(Note::of_parts(note_of_code(k)) == root);
    if name.len() == 2 {
        assert(s.take(2) =~= name);
        assert(s.skip(2) =~= sym);
    } else {
        assert(name.len() == 1);
        assert(s.take(1) =~= name);
        assert(s.skip(1) =~= sym);
        if s.len() >= 2 {
            assert(s.take(2)[1] == sym[0]);
            assert(sym[0] != '#' && sym[0] != 'b');
            assert(parse_note_name(s.take(2)) is None);
        }
    }
}

/// Every voicing of a chord spells out the chord, spans no more than the
/// configured number of frets, and is played on the strings of the tuning at
/// frets within the configured range.
pub proof fn law_voicings_fit(chord: Chord, config: VoicingConfig, k: int)
    requires
        0 <= k < chord.voicing_seq(config).len(),
    ensures
        chord.voicing_seq(config)[k].spells(chord),
        chord.voicing_seq(config)[k].span() <= config.max_span,
        chord.voicing_seq(config)[k].root_seq() == config.tuning.root_seq(),
        forall|i: int|
            0 <= i < STRING_COUNT ==> config.min_fret <= #[trigger] chord.voicing_seq(config)[k].fret(i)
                <= config.max_fret,
{
    let cl = chord.candidate_lists(config);
    let mapped = product(cl).map_values(|c: Seq<UkeString>| voicing_of(c));
    let keep = |v: Voicing| chord.keeps(config, v);
    let filtered = mapped.filter(keep);
    lemma_sort_voicings_members(filtered);
    let v = chord.voicing_seq(config)[k];
    assert(filtered.contains(v));
    let m = choose|m: int| 0 <= m < filtered.len() && filtered[m] == v;
    mapped.lemma_filter_pred(keep, m);
    mapped.lemma_filter_contains_rev(keep, v);
    let q = choose|q: int| 0 <= q < mapped.len() && mapped[q] == v;
    lemma_product_members(cl, q);
    let c = product(cl)[q];
    assert(config.tuning.root_seq().len() == STRING_COUNT);
    lemma_voicing_of(c);
    assert forall|i: int| 0 <= i < STRING_COUNT implies config.min_fret <= #[trigger] v.fret(i) <= config.max_fret
        && v.root_seq()[i] == config.tuning.root_seq()[i] by {
        assert(cl[i].contains(c[i]));
        let r = config.tuning.root_seq()[i];
        lemma_fret_candidates(chord.played(), r, config.min_fret, config.max_fret);
        let j = choose|j: int| 0 <= j < cl[i].len() && cl[i][j] == c[i];
    }
    assert(v.root_seq() =~= config.tuning.root_seq());
}

/// The voicings of a chord come lowest position first: no voicing comes
/// after a later one (lowest pressed fret first, then the frets compared from
/// the last string to the first one).
pub proof fn law_voicings_sorted(chord: Chord, config: VoicingConfig)
    ensures
        voicings_sorted(chord.voicing_seq(config)),
{
    lemma_sort_voicings_sorted(
        product(chord.candidate_lists(config)).map_values(|c: Seq<UkeString>| voicing_of(c)).filter(
            |v: Voicing| chord.keeps(config, v),
        ),
    );
}

/// A chord such as C, Cm and so on.
#[derive(Debug, Clone, PartialEq, Eq, PartialOrd, Ord)]
pub struct Chord {
    pub root: Note,
    pub chord_type: ChordType,
    pub notes: Vec<Note>,
}

impl Chord {
    /// The notes of a chord: the root plus each of the chord type's intervals.
    pub open spec fn notes_of(root: Note, ct: ChordType) -> Seq<Note> {
        ct.interval_seq().map_values(|i: Interval| root.plus(i))
    }

    /// The chord's notes agree with its root and chord type.
    pub open spec fn wf(self) -> bool {
        self.notes@ == Chord::notes_of(self.root, self.chord_type)
    }

    /// The notes of the chord that are played on the instrument.
    pub open spec fn played(self) -> Seq<Note> {
        played_intervals(self.chord_type).map_values(|i: Interval| self.root.plus(i))
    }

    /// For each string of the tuning, the ways to play a note of the chord on
    /// it within the configured frets.
    pub open spec fn candidate_lists(self, config: VoicingConfig) -> Seq<Seq<UkeString>> {
        config.tuning.root_seq().map_values(
            |r: Note| fret_candidates(self.played(), r, config.min_fret, config.max_fret),
        )
    }

    /// A voicing is kept if it spells out the chord and spans at most the
    /// configured number of frets.
    pub open spec fn keeps(self, config: VoicingConfig, v: Voicing) -> bool {
        v.spells(self) && v.span() <= config.max_span
    }

    /// The voicings of the chord: all combinations of candidates for the four
    /// strings that are kept, in the order of the voicings (lowest position
    /// first); voicings equal in that order stay in the order of combination.
    pub open spec fn voicing_seq(self, config: VoicingConfig) -> Seq<Voicing> {
        sort_voicings(
            product(self.candidate_lists(config)).map_values(|c: Seq<UkeString>| voicing_of(c)).filter(
                |v: Voicing| self.keeps(config, v),
            ),
        )
    }

    /// The chord's name, as in "C#m7 - C# minor 7th".
    pub open spec fn name(self) -> Seq<char> {
        self.root.name() + self.chord_type.symbol_seq()[0] + " - "@ + self.root.name() + " "@
            + self.chord_type.name()
    }

    /// Create the chord with the given root and chord type.
    pub fn new(root: Note, chord_type: ChordType) -> (c: Chord)
        ensures
            c.root == root,
            c.chord_type == chord_type,
            c.wf(),
    {
        let intervals = chord_type.intervals();
        let mut notes: Vec<Note> = Vec::new();
        let mut i: usize = 0;
        while i < intervals.len()
            invariant
                i <= intervals.len(),
                intervals@ == chord_type.interval_seq(),
                notes@ =~= Chord::notes_of(root, chord_type).take(i as int),
            decreases intervals.len() - i,
        {
            notes.push(root.add_interval(intervals[i]));
            i = i + 1;
        }
        assert(Chord::notes_of(root, chord_type).take(intervals.len() as int) =~= Chord::notes_of(
            root,
            chord_type,
        ));
        Chord { root, chord_type, notes }
    }

    /// The chord's notes that are played on our instrument. If the chord
    /// contains more notes than we have strings, only required notes are played
    /// (and optional ones as far as strings are left).
    pub fn played_notes(&self) -> (v: Vec<Note>)
        ensures
            v@ == self.played(),
            v@.len() <= STRING_COUNT,
    {
        let req = self.chord_type.required_intervals();
        let opt = self.chord_type.optional_intervals();
        let ghost all = req@ + opt@;
        let mut v: Vec<Note> = Vec::new();
        let mut i: usize = 0;
        while i < req.len() && v.len() < STRING_COUNT
            invariant
                i <= req.len(),
                i <= STRING_COUNT,
                v@.len() == i,
                req@ == self.chord_type.required_seq(),
                all == req@ + opt@,
                v@ =~= all.take(i as int).map_values(|x: Interval| self.root.plus(x)),
            decreases req.len() - i,
        {
            v.push(self.root.add_interval(req[i]));
            i = i + 1;
        }
        let mut j: usize = 0;
        while j < opt.len() && v.len() < STRING_COUNT
            invariant
                j <= opt.len(),
                v@.len() == i + j,
                i + j <= STRING_COUNT,
                i <= req.len(),
                (i < req.len() ==> i == STRING_COUNT),
                j > 0 ==> i == req.len(),
                opt@ == self.chord_type.optional_seq(),
                req@ == self.chord_type.required_seq(),
                all == req@ + opt@,
                v@ =~= all.take(i + j).map_values(|x: Interval| self.root.plus(x)),
            decreases opt.len() - j,
        {
            v.push(self.root.add_interval(opt[j]));
            j = j + 1;
        }
        proof {
            if all.len() > STRING_COUNT {
                assert(i + j == STRING_COUNT);
            } else {
                assert(i + j == all.len());
                assert(all.take(all.len() as int) =~= all);
            }
        }
        v
    }

    /// Whether the chord contains `note` (notes being compared by pitch class).
    pub fn contains(&self, note: Note) -> (r: bool)
        ensures
            r == exists|j: int| 0 <= j < self.notes@.len() && (#[trigger] self.notes@[j]).same(note),
    {
        let mut i: usize = 0;
        while i < self.notes.len()
            invariant
                i <= self.notes@.len(),
                forall|j: int| 0 <= j < i ==> !(#[trigger] self.notes@[j]).same(note),
            decreases self.notes@.len() - i,
        {
            if self.notes[i].pitch_class == note.pitch_class {
                return true;
            }
            i = i + 1;
        }
        false
    }

    /// All voicings of the chord that fit the configuration, lowest position first.
    pub fn voicings(&self, config: VoicingConfig) -> (v: Vec<Voicing>)
        ensures
            v@ == self.voicing_seq(config),
    {
        let roots = config.tuning.roots();
        let played = self.played_notes();
        let mut lists: Vec<Vec<UkeString>> = Vec::new();
        let mut r: usize = 0;
        while r < roots.len()
            invariant
                r <= roots.len(),
                roots@ == config.tuning.root_seq(),
                played@ == self.played(),
                lists@.len() == r,
                forall|k: int| 0 <= k < r ==> (#[trigger] lists@[k])@ == self.candidate_lists(config)[k],
            decreases roots.len() - r,
        {
            let root = roots[r];
            let mut cands: Vec<UkeString> = Vec::new();
            let mut j: usize = 0;
            while j < played.len()
                invariant
                    j <= played.len(),
                    played@ == self.played(),
                    cands@ == fret_candidates(played@.take(j as int), root, config.min_fret, config.max_fret),
                decreases played.len() - j,
            {
                proof {
                    assert(played@.take(j + 1).drop_last() =~= played@.take(j as int));
                }
                let note = played[j];
                let d = note.pitch_class.diff(root.pitch_class);
                if config.min_fret <= d && d <= config.max_fret {
                    cands.push((root, d, note));
                }
                let d2 = d + 12;
                if config.min_fret <= d2 && d2 <= config.max_fret {
                    cands.push((root, d2, note));
                }
                j = j + 1;
            }
            assert(played@.take(played.len() as int) =~= played@);
            lists.push(cands);
            r = r + 1;
        }
        let ghost lists_view = self.candidate_lists(config);
        assert(lists@.map_values(|l: Vec<UkeString>| l@) =~= lists_view);
        let combos = cartesian_product(&lists);
        let ghost all = product(lists_view);
        let ghost pred = |v: Voicing| self.keeps(config, v);
        let ghost mapped = all.map_values(|c: Seq<UkeString>| voicing_of(c));
        let mut result: Vec<Voicing> = Vec::new();
        let mut i: usize = 0;
        while i < combos.len()
            invariant
                i <= combos.len(),
                combos@.len() == all.len(),
                all == product(lists_view),
                lists_view == self.candidate_lists(config),
                lists_view.len() == STRING_COUNT,
                mapped == all.map_values(|c: Seq<UkeString>| voicing_of(c)),
                pred == (|v: Voicing| self.keeps(config, v)),
                forall|m: int| 0 <= m < combos@.len() ==> (#[trigger] combos@[m])@ == all[m],
                result@ == sort_voicings(mapped.take(i as int).filter(pred)),
            decreases combos.len() - i,
        {
            proof {
                lemma_product_members(lists_view, i as int);
            }
            let combo = &combos[i];
            let v = Voicing::from_uke_strings(combo.as_slice());
            proof {
                lemma_voicing_of(all[i as int]);
                lemma_view_eq(v, voicing_of(all[i as int]));
                reveal(Seq::filter);
                assert(mapped.take(i + 1).drop_last() =~= mapped.take(i as int));
                assert(mapped.take(i + 1).last() == v);
            }
            if v.spells_out(self) && v.get_span() <= config.max_span {
                proof {
                    let f = mapped.take(i + 1).filter(pred);
                    assert(f.drop_last() =~= mapped.take(i as int).filter(pred));
                }
                insert_sorted(&mut result, v);
            }
            i = i + 1;
        }
        assert(mapped.take(combos.len() as int) =~= mapped);
        result
    }

    /// The chord with the same chord type whose root is `n` semitones higher.
    pub fn add_semitones(&self, n: Semitones) -> (c: Chord)
        requires
            self.root.pitch_class.value() + n <= u8::MAX,
        ensures
            c.root == self.root.up(n as nat),
            c.chord_type == self.chord_type,
            c.wf(),
    {
        Chord::new(self.root.add_semitones(n), self.chord_type)
    }

    /// The chord with the same chord type whose root is `n` semitones lower.
    pub fn sub_semitones(&self, n: Semitones) -> (c: Chord)
        ensures
            c.root == self.root.down(n as nat),
            c.chord_type == self.chord_type,
            c.wf(),
    {
        Chord::new(self.root.sub_semitones(n), self.chord_type)
    }

    /// Transpose the chord by the given number of semitones: up for a positive
    /// number, down for a negative one.
    pub fn transpose(&self, semitones: i8) -> (c: Chord)
        requires
            semitones != i8::MIN,
        ensures
            c.chord_type == self.chord_type,
            c.wf(),
            semitones < 0 ==> c.root == self.root.down((-semitones) as nat),
            semitones >= 0 ==> c.root == self.root.up(semitones as nat),
    {
        if semitones < 0 {
            self.sub_semitones((-semitones) as u8)
        } else {
            self.add_semitones(semitones as u8)
        }
    }

    /// Parse a chord from its name, such as "C", "C#m7" or "Dbmaj7".
    pub fn from_str(s: &str) -> (r: Result<Chord, ParseChordError>)
        ensures
            match r {
                Ok(c) => parse_chord(s@) == Some((c.root, c.chord_type)) && c.wf(),
                Err(e) => parse_chord(s@) is None && e.name@ == s@,
            },
    {
        let cs = chars_of(s);
        let mut i: usize = 2;
        while i >= 1
            invariant
                i <= 2,
                cs@ == s@,
                i < 2 ==> split_chord_name(cs@, 2) is None,
                i < 1 ==> split_chord_name(cs@, 1) is None,
            decreases i,
        {
            if cs.len() >= i {
                let mut prefix: Vec<char> = Vec::new();
                let mut rest: Vec<char> = Vec::new();
                let mut k: usize = 0;
                while k < cs.len()
                    invariant
                        1 <= i <= 2,
                        i <= cs.len(),
                        k <= cs.len(),
                        prefix@ == cs@.take(if k < i { k as int } else { i as int }),
                        rest@ == if k < i { Seq::<char>::empty() } else { cs@.subrange(i as int, k as int) },
                    decreases cs.len() - k,
                {
                    if k < i {
                        prefix.push(cs[k]);
                    } else {
                        rest.push(cs[k]);
                    }
                    k = k + 1;
                    assert(prefix@ =~= cs@.take(if k < i { k as int } else { i as int }));
                    assert(rest@ =~= if k < i { Seq::<char>::empty() } else { cs@.subrange(i as int, k as int) });
                }
                assert(rest@ =~= cs@.skip(i as int));
                if let Some(code) = note_code_of_chars(&prefix) {
                    if let Some(ct) = ChordType::from_chars(&rest) {
                        let root = crate::note::note_from_code(code);
                        return Ok(Chord::new(root, ct));
                    }
                }
            }
            i = i - 1;
        }
        Err(ParseChordError { name: crate::text::string_from(s) })
    }

    /// Determine the chord represented by a list of pitch classes whose first
    /// entry is the root.
    pub fn try_from(pitches: &[PitchClass]) -> (r: Result<Chord, &'static str>)
        ensures
            match r {
                Ok(c) => chord_type_of_pitches(pitches@) == Some(c.chord_type)
                    && c.root == Note::of_parts(Note::sharp_of(pitches@[0])) && c.wf(),
                Err(e) => chord_type_of_pitches(pitches@) is None
                    && e@ == "No matching chord type found."@,
            },
    {
        let chord_type = ChordType::try_from(pitches)?;
        let root = Note::from_pitch_class(pitches[0]);
        Ok(Chord::new(root, chord_type))
    }

    /// The chord's name, as in "C#m7 - C# minor 7th".
    pub fn to_string(&self) -> (s: String)
        requires
            self.root.valid(),
        ensures
            s@ == self.name(),
    {
        let mut s = self.root.to_string();
        let sym = self.chord_type.to_symbol();
        s.append(sym.as_str());
        s.append(" - ");
        s.append(self.root.to_str());
        s.append(" ");
        let ct = self.chord_type.to_string();
        s.append(ct.as_str());
        s
    }
}

} // verus!
