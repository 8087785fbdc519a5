//! Chord voicings: which fret to press on each string, and the notes this gives.

use vstd::prelude::*;

use crate::chord::Chord;
use crate::chord_type::{chord_type_of_pitches, ChordType};
use crate::pitch_class::PitchClass;
use crate::distance::Distance;
use crate::fingering::{positions_dist, positions_of, Fingering};
use crate::fret_pattern::FretPattern;
use crate::note::Note;
use crate::tuning::Tuning;
use crate::{FretID, UkeString, FINGER_COUNT, STRING_COUNT};

verus! {

/// The smaller of two pressed frets, where 0 stands for "no pressed fret".
pub open spec fn pressed_min(a: u8, b: u8) -> u8 {
    if a == 0 {
        b
    } else if b == 0 {
        a
    } else if a <= b {
        a
    } else {
        b
    }
}

/// The larger of two frets.
pub open spec fn fret_max(a: u8, b: u8) -> u8 {
    if a >= b {
        a
    } else {
        b
    }
}

/// The smaller of two frets.
pub open spec fn fret_min(a: u8, b: u8) -> u8 {
    if a <= b {
        a
    } else {
        b
    }
}

/// A chord voicing: for each of the four strings, its root note, the fret
/// pressed on it and the note this gives.
///
/// The same chord can be voiced in different ways, i.e. there are
/// several ways to play the same chord on the ukulele.
#[derive(Clone, Copy, PartialEq, Eq, Debug)]
pub struct Voicing {
    uke_strings: [UkeString; STRING_COUNT],
}

impl View for Voicing {
    type V = Seq<UkeString>;

    closed spec fn view(&self) -> Seq<UkeString> {
        self.uke_strings@
    }
}

/// A voicing has one entry per string.
pub broadcast proof fn lemma_voicing_len(v: Voicing)
    ensures
        #[trigger] v@.len() == STRING_COUNT,
{
}

/// The voicing with the given four strings.
pub closed spec fn voicing_of(s: Seq<UkeString>) -> Voicing {
    Voicing { uke_strings: [s[0], s[1], s[2], s[3]] }
}

/// A voicing made of four strings has exactly these strings.
pub proof fn lemma_voicing_of(s: Seq<UkeString>)
    requires
        s.len() == STRING_COUNT,
    ensures
        voicing_of(s)@ == s,
{
    assert(voicing_of(s)@ =~= s);
}


/// Scanning the strings in order up to string `k`: how many strings are
/// pressed at fret `min` and which frets are pressed, or `None` as soon as an
/// open string follows a string pressed at fret `min`.
pub open spec fn barre_scan(f: Seq<u8>, min: u8, k: nat) -> Option<(nat, Seq<u8>)>
    decreases k,
{
    if k == 0 {
        Some((0nat, Seq::<u8>::empty()))
    } else {
        match barre_scan(f, min, (k - 1) as nat) {
            None => None,
            Some((c, p)) => {
                let x = f[k - 1];
                if x == 0 {
                    if c > 0 {
                        None
                    } else {
                        Some((c, p))
                    }
                } else {
                    Some((if x == min { c + 1 } else { c }, p.push(x)))
                }
            },
        }
    }
}

/// How many of the frets `p` agree with the alternating pattern a, b, a, b, ...
pub open spec fn alternating_count(p: Seq<u8>, a: int, b: int) -> nat
    decreases p.len(),
{
    if p.len() == 0 {
        0
    } else {
        alternating_count(p.drop_last(), a, b) + if p.last() == (if (p.len() - 1) % 2 == 0 {
            a
        } else {
            b
        }) {
            1nat
        } else {
            0nat
        }
    }
}

/// The state of the finger assignment: the finger on each string, the next
/// finger to use, the previously used finger and the number of strings
/// with a finger on them.
pub type FingerState = (Seq<u8>, int, int, int);

/// Put the current finger on string `i` if it is pressed at fret `fret_id`.
pub open spec fn place_on_string(st: FingerState, f: u8, i: int, fret_id: int, barre: bool) -> FingerState {
    if f == fret_id {
        let finger = st.1;
        (
            st.0.update(i, finger as u8),
            if (!barre || finger > 1) && finger < FINGER_COUNT {
                finger + 1
            } else {
                finger
            },
            st.2,
            st.3 + 1,
        )
    } else {
        st
    }
}

/// Put fingers on the first `k` strings that are pressed at fret `fret_id`.
pub open spec fn place_on_fret(frets: Seq<u8>, fret_id: int, barre: bool, st: FingerState, k: nat) -> FingerState
    decreases k,
{
    if k == 0 {
        st
    } else {
        place_on_string(
            place_on_fret(frets, fret_id, barre, st, (k - 1) as nat),
            frets[k - 1],
            k - 1,
            fret_id,
            barre,
        )
    }
}

/// After a fret: if no finger was used on it, move on to the next finger
/// when enough fingers are left for the remaining strings.
pub open spec fn finish_fret(st: FingerState, pressed: int) -> FingerState {
    let remaining_fingers = FINGER_COUNT - st.1;
    let remaining_strings = pressed - st.3;
    let finger = if st.1 == st.2 && remaining_fingers >= remaining_strings {
        st.1 + 1
    } else {
        st.1
    };
    (st.0, finger, finger, st.3)
}

/// Assign fingers on the frets from `fret_id` up to `last`.
pub open spec fn place_from(
    frets: Seq<u8>,
    fret_id: int,
    last: int,
    barre: bool,
    pressed: int,
    st: FingerState,
) -> FingerState
    decreases last + 1 - fret_id,
{
    if fret_id > last {
        st
    } else {
        place_from(
            frets,
            fret_id + 1,
            last,
            barre,
            pressed,
            finish_fret(place_on_fret(frets, fret_id, barre, st, STRING_COUNT as nat), pressed),
        )
    }
}

/// The number of strings pressed at a fret between `lo` and `hi` (both included).
pub open spec fn count_between(v: Voicing, lo: int, hi: int) -> int {
    (if lo <= v.fret(0) <= hi { 1int } else { 0int }) + (if lo <= v.fret(1) <= hi { 1int } else { 0int })
        + (if lo <= v.fret(2) <= hi { 1int } else { 0int }) + (if lo <= v.fret(3) <= hi { 1int } else { 0int })
}

/// The number of strings among the first `k` that are pressed at fret `x`.
pub open spec fn count_at_before(v: Voicing, x: int, k: int) -> int {
    (if 0 < k && v.fret(0) == x { 1int } else { 0int }) + (if 1 < k && v.fret(1) == x { 1int } else { 0int })
        + (if 2 < k && v.fret(2) == x { 1int } else { 0int }) + (if 3 < k && v.fret(3) == x { 1int } else { 0int })
}

impl Voicing {
    /// The voicing requires the player to play a barre chord: at least two
    /// strings are pressed at the lowest pressed fret, no open string follows
    /// a string pressed there, the pressed frets do not simply alternate
    /// between the lowest fret and one fret a little higher (as in 0232 or
    /// 2323), and not all pressed strings lie on the lowest fret unless all
    /// four strings do (0111 is played with fingers 0123).
    pub open spec fn barre(self) -> bool {
        let min = self.min_pressed();
        match barre_scan(self.fret_seq(), min, STRING_COUNT as nat) {
            None => false,
            Some((c, p)) => {
                if alternating_count(p, min as int, min + 1) == p.len() || alternating_count(
                    p,
                    min as int,
                    min + 2,
                ) == p.len() || alternating_count(p, min as int, min + 3) == p.len() {
                    false
                } else if c < STRING_COUNT && c == p.len() {
                    false
                } else {
                    c >= 2
                }
            },
        }
    }

    /// The fret from which fingers are assigned.
    pub open spec fn first_finger_fret(self) -> int {
        let pressed = self.pressed_count();
        let max = self.max_fret();
        if pressed == 0 {
            1
        } else if pressed == 1 && max > 3 {
            max as int
        } else if pressed == 1 {
            1
        } else if pressed == 2 && max == 3 {
            1
        } else {
            self.min_pressed() as int
        }
    }

    /// The fingers on the strings (1 to 4, 0 for an open string): going from
    /// the lowest to the highest fret and, on each fret, from the first to the
    /// last string, each pressed string gets the current finger; the finger
    /// moves on after each string unless a barre is played with the first
    /// finger, and it moves on after a fret where it was not used if enough
    /// fingers are left for the remaining strings.
    pub open spec fn finger_seq(self) -> Seq<u8> {
        place_from(
            self.fret_seq(),
            self.first_finger_fret(),
            self.max_fret() as int,
            self.barre(),
            self.pressed_count() as int,
            (seq![0u8, 0u8, 0u8, 0u8], 1, 1, 0),
        ).0
    }

    /// The frets of `self` come before those of `other` when compared from the
    /// last string to the first one.
    pub open spec fn frets_before(self, other: Voicing) -> bool {
        ||| self.fret(3) < other.fret(3)
        ||| self.fret(3) == other.fret(3) && self.fret(2) < other.fret(2)
        ||| self.fret(3) == other.fret(3) && self.fret(2) == other.fret(2) && self.fret(1) < other.fret(1)
        ||| self.fret(3) == other.fret(3) && self.fret(2) == other.fret(2) && self.fret(1) == other.fret(1)
            && self.fret(0) < other.fret(0)
    }

    /// Voicings are ordered by their lowest pressed fret first and by their
    /// frets read from the last string to the first one second.
    pub open spec fn before(self, other: Voicing) -> bool {
        ||| self.min_pressed() < other.min_pressed()
        ||| self.min_pressed() == other.min_pressed() && self.frets_before(other)
    }
}

impl Voicing {
    /// The fret pressed on string `i`.
    pub open spec fn fret(self, i: int) -> u8 {
        self@[i].1
    }

    /// The frets of the four strings.
    pub open spec fn fret_seq(self) -> Seq<FretID> {
        self@.map_values(|u: UkeString| u.1)
    }

    /// The root notes of the four strings.
    pub open spec fn root_seq(self) -> Seq<Note> {
        self@.map_values(|u: UkeString| u.0)
    }

    /// The notes played on the four strings.
    pub open spec fn note_seq(self) -> Seq<Note> {
        self@.map_values(|u: UkeString| u.2)
    }

    /// The number of strings pressed down.
    pub open spec fn pressed_count(self) -> nat {
        (if self.fret(0) > 0 { 1nat } else { 0nat }) + (if self.fret(1) > 0 { 1nat } else { 0nat })
            + (if self.fret(2) > 0 { 1nat } else { 0nat }) + (if self.fret(3) > 0 { 1nat } else { 0nat })
    }

    /// The lowest fret at which a string is pressed down (0 if none is).
    pub open spec fn min_pressed(self) -> u8 {
        pressed_min(pressed_min(self.fret(0), self.fret(1)), pressed_min(self.fret(2), self.fret(3)))
    }

    /// The lowest fret involved (0 if a string is played open).
    pub open spec fn min_fret(self) -> u8 {
        fret_min(fret_min(self.fret(0), self.fret(1)), fret_min(self.fret(2), self.fret(3)))
    }

    /// The highest fret involved.
    pub open spec fn max_fret(self) -> u8 {
        fret_max(fret_max(self.fret(0), self.fret(1)), fret_max(self.fret(2), self.fret(3)))
    }

    /// The number of frets between the lowest and the highest pressed fret,
    /// both included (0 if no string is pressed).
    pub open spec fn span(self) -> int {
        if self.max_fret() == 0 {
            0
        } else {
            self.max_fret() - self.min_pressed() + 1
        }
    }

    /// The voicing contains exactly the notes needed to play `chord`: every
    /// note played on a string is a note of the chord and every note of the
    /// chord that is played is played on some string. Notes are compared by
    /// the pitch class they sound, not by name: a voicing made from frets
    /// spells its notes sharp, and 0333 in C tuning (G D# G C) spells out
    /// C minor (C Eb G).
    pub open spec fn spells(self, chord: Chord) -> bool {
        &&& forall|i: int|
            0 <= i < STRING_COUNT ==> #[trigger] pitch_in(self.note_seq()[i], chord.played())
        &&& forall|j: int|
            0 <= j < chord.played().len() ==> #[trigger] pitch_in(chord.played()[j], self.note_seq())
    }

    /// The sum of the differences between the frets pressed on each string.
    pub open spec fn semitone_dist(self, other: Voicing) -> int {
        fret_diff(self.fret(0), other.fret(0)) + fret_diff(self.fret(1), other.fret(1))
            + fret_diff(self.fret(2), other.fret(2)) + fret_diff(self.fret(3), other.fret(3))
    }

    /// The positions of the fingers when playing the voicing.
    pub open spec fn finger_positions(self) -> Seq<crate::FingerPosition> {
        positions_of(self.fret_seq(), self.finger_seq(), STRING_COUNT as nat)
    }

    /// The effort of moving from the fingering of this voicing to that of another one.
    pub open spec fn fingering_dist(self, other: Voicing) -> int {
        positions_dist(self.finger_positions(), other.finger_positions())
    }

    /// The chords (as root and chord type) that the voicing's notes make up.
    pub open spec fn chord_seq(self) -> Seq<(Note, ChordType)> {
        let pcs = present_pitch_classes(self.note_seq());
        rotation_chords(pcs, pcs.len())
    }

    /// The chords that the notes of the voicing make up: each pitch class that
    /// occurs is tried as the root, from C to B.
    pub fn get_chords(&self) -> (v: Vec<Chord>)
        ensures
            v@.len() == self.chord_seq().len(),
            forall|i: int|
                0 <= i < v@.len() ==> ((#[trigger] v@[i]).root, v@[i].chord_type) == self.chord_seq()[i]
                    && v@[i].wf(),
    {
        let notes = self.notes();
        let ghost pred = |p: PitchClass| pitch_class_present(self.note_seq(), p);
        let mut pitches: Vec<PitchClass> = Vec::new();
        let mut p: u8 = 0;
        while p < 12
            invariant
                p <= 12,
                notes@ == self.note_seq(),
                pred == (|p: PitchClass| pitch_class_present(self.note_seq(), p)),
                pitches@ == all_pitch_classes().take(p as int).filter(pred),
            decreases 12 - p,
        {
            let pc = PitchClass::from_int(p);
            let mut found = false;
            let mut j: usize = 0;
            while j < notes.len()
                invariant
                    j <= notes.len(),
                    notes@ == self.note_seq(),
                    found == exists|m: int| 0 <= m < j && (#[trigger] notes@[m]).pitch_class == pc,
                decreases notes.len() - j,
            {
                if notes[j].pitch_class == pc {
                    found = true;
                }
                j = j + 1;
            }
            proof {
                reveal(Seq::filter);
                assert(all_pitch_classes().take(p + 1).drop_last() =~= all_pitch_classes().take(p as int));
                assert(all_pitch_classes().take(p + 1).last() == pc);
            }
            if found {
                pitches.push(pc);
            }
            p = p + 1;
        }
        assert(all_pitch_classes().take(12) =~= all_pitch_classes());
        let n = pitches.len();
        let mut chords: Vec<Chord> = Vec::new();
        let mut k: usize = 0;
        while k < n
            invariant
                k <= n,
                n == pitches@.len(),
                pitches@ == present_pitch_classes(self.note_seq()),
                chords@.len() == rotation_chords(pitches@, k as nat).len(),
                forall|i: int|
                    0 <= i < chords@.len() ==> ((#[trigger] chords@[i]).root, chords@[i].chord_type)
                        == rotation_chords(pitches@, k as nat)[i] && chords@[i].wf(),
            decreases n - k,
        {
            let mut rot: Vec<PitchClass> = Vec::new();
            let mut a: usize = k;
            while a < n
                invariant
                    k <= a <= n,
                    n == pitches@.len(),
                    rot@ == pitches@.subrange(k as int, a as int),
                decreases n - a,
            {
                rot.push(pitches[a]);
                a = a + 1;
                assert(rot@ =~= pitches@.subrange(k as int, a as int));
            }
            let mut b: usize = 0;
            while b < k
                invariant
                    b <= k,
                    k < n,
                    n == pitches@.len(),
                    rot@ == pitches@.skip(k as int) + pitches@.take(b as int),
                decreases k - b,
            {
                rot.push(pitches[b]);
                b = b + 1;
                assert(rot@ =~= pitches@.skip(k as int) + pitches@.take(b as int));
            }
            assert(rot@ == rotation(pitches@, k as int));
            assert(rot@[0] == pitches@[k as int]);
            match Chord::try_from(rot.as_slice()) {
                Ok(chord) => {
                    chords.push(chord);
                },
                Err(_) => {},
            }
            k = k + 1;
        }
        chords
    }

    /// The strings of the voicing.
    pub fn uke_strings(&self) -> (v: Vec<UkeString>)
        ensures
            v@ == self@,
    {
        let v = vec![self.uke_strings[0], self.uke_strings[1], self.uke_strings[2], self.uke_strings[3]];
        assert(v@ =~= self@);
        v
    }

    /// The root notes of the strings.
    pub fn roots(&self) -> (v: Vec<Note>)
        ensures
            v@ == self.root_seq(),
    {
        let v = vec![self.uke_strings[0].0, self.uke_strings[1].0, self.uke_strings[2].0, self.uke_strings[3].0];
        assert(v@ =~= self.root_seq());
        v
    }

    /// The frets pressed on the strings (0 for an open string).
    pub fn frets(&self) -> (v: Vec<FretID>)
        ensures
            v@ == self.fret_seq(),
            v@.len() == STRING_COUNT,
    {
        let v = vec![self.uke_strings[0].1, self.uke_strings[1].1, self.uke_strings[2].1, self.uke_strings[3].1];
        assert(v@ =~= self.fret_seq());
        v
    }

    /// The notes played on the strings.
    pub fn notes(&self) -> (v: Vec<Note>)
        ensures
            v@ == self.note_seq(),
    {
        let v = vec![self.uke_strings[0].2, self.uke_strings[1].2, self.uke_strings[2].2, self.uke_strings[3].2];
        assert(v@ =~= self.note_seq());
        v
    }

    /// Create a voicing from a set of frets and a tuning. As nothing is known
    /// about a chord, notes that can be sharp or flat are spelled sharp.
    pub fn new(fret_pattern: FretPattern, tuning: Tuning) -> (v: Voicing)
        requires
            crate::fret_pattern::frets_fit(fret_pattern@, tuning),
        ensures
            forall|i: int| 0 <= i < STRING_COUNT ==> #[trigger] v@[i] == (
                tuning.root_seq()[i],
                fret_pattern@[i],
                tuning.root_seq()[i].up(fret_pattern@[i] as nat),
            ),
    {
        let roots = tuning.roots();
        let frets = fret_pattern.iter();
        proof {
            crate::note::lemma_tuning_roots_small(tuning);
        }
        let s0 = (roots[0], frets[0], roots[0].add_semitones(frets[0]));
        let s1 = (roots[1], frets[1], roots[1].add_semitones(frets[1]));
        let s2 = (roots[2], frets[2], roots[2].add_semitones(frets[2]));
        let s3 = (roots[3], frets[3], roots[3].add_semitones(frets[3]));
        Voicing { uke_strings: [s0, s1, s2, s3] }
    }

    /// A voicing from a slice of four strings.
    pub fn from_uke_strings(uke_strings: &[UkeString]) -> (v: Voicing)
        requires
            uke_strings@.len() == STRING_COUNT,
        ensures
            v@ == uke_strings@,
    {
        let v = Voicing { uke_strings: [uke_strings[0], uke_strings[1], uke_strings[2], uke_strings[3]] };
        assert(v@ =~= uke_strings@);
        v
    }

    /// Whether the voicing requires the player to play a barre chord.
    pub fn has_barre(&self) -> (r: bool)
        requires
            self.min_pressed() + 3 <= u8::MAX,
        ensures
            r == self.barre(),
    {
        let min_fret = self.get_min_pressed_fret();
        let frets = self.frets();
        let mut min_fret_count: usize = 0;
        let mut pressed_frets: Vec<u8> = Vec::new();
        let mut k: usize = 0;
        proof {
            lemma_voicing_len(*self);
        }
        while k < STRING_COUNT
            invariant
                k <= STRING_COUNT,
                frets@ == self.fret_seq(),
                frets@.len() == STRING_COUNT,
                min_fret == self.min_pressed(),
                barre_scan(self.fret_seq(), min_fret, k as nat) == Some(
                    (min_fret_count as nat, pressed_frets@),
                ),
                min_fret_count <= k,
            decreases STRING_COUNT - k,
        {
            let fret = frets[k];
            if fret == 0 {
                if min_fret_count > 0 {
                    proof {
                        lemma_barre_scan_none(self.fret_seq(), min_fret, (k + 1) as nat);
                    }
                    return false;
                }
            } else {
                if fret == min_fret {
                    min_fret_count = min_fret_count + 1;
                }
                pressed_frets.push(fret);
            }
            k = k + 1;
        }
        let mut i: u8 = 1;
        while i < 4
            invariant
                1 <= i <= 4,
                min_fret + 3 <= u8::MAX,
                min_fret == self.min_pressed(),
                barre_scan(self.fret_seq(), min_fret, STRING_COUNT as nat) == Some(
                    (min_fret_count as nat, pressed_frets@),
                ),
                i > 1 ==> alternating_count(pressed_frets@, min_fret as int, min_fret + 1)
                    != pressed_frets@.len(),
                i > 2 ==> alternating_count(pressed_frets@, min_fret as int, min_fret + 2)
                    != pressed_frets@.len(),
                i > 3 ==> alternating_count(pressed_frets@, min_fret as int, min_fret + 3)
                    != pressed_frets@.len(),
            decreases 4 - i,
        {
            let second = min_fret + i;
            let alternating = count_alternating(&pressed_frets, min_fret, second);
            if alternating == pressed_frets.len() {
                return false;
            }
            i = i + 1;
        }
        if min_fret_count < STRING_COUNT && min_fret_count == pressed_frets.len() {
            return false;
        }
        min_fret_count >= 2
    }

    /// Compute a fingering for the voicing: the finger (1 to 4) placed on each
    /// string, 0 for open strings.
    pub fn fingers_on_strings(&self) -> (r: [u8; STRING_COUNT])
        requires
            self.min_pressed() + 3 <= u8::MAX,
            self.max_fret() < u8::MAX,
        ensures
            r@ == self.finger_seq(),
            forall|i: int| 0 <= i < STRING_COUNT ==> r@[i] <= FINGER_COUNT,
    {
        proof {
            lemma_voicing_len(*self);
            lemma_min_pressed_le_max(*self);
        }
        let pressed_strings = self.count_pressed_strings();
        let max_fret = self.get_max_fret();
        let min_fret: u8 = if pressed_strings == 0 {
            1
        } else if pressed_strings == 1 && max_fret > 3 {
            max_fret
        } else if pressed_strings == 1 {
            1
        } else if pressed_strings == 2 && max_fret == 3 {
            1
        } else {
            self.get_min_pressed_fret()
        };
        let barre = self.has_barre();
        let frets = self.frets();
        let mut fingering: Vec<u8> = vec![0, 0, 0, 0];
        let mut finger: usize = 1;
        let mut prev_finger: usize = 1;
        let mut used_strings: usize = 0;
        let ghost pressed = self.pressed_count() as int;
        let ghost start: FingerState = (seq![0u8, 0u8, 0u8, 0u8], 1, 1, 0);
        assert(fingering@ =~= seq![0u8, 0u8, 0u8, 0u8]);
        let mut fret_id: u8 = min_fret;
        while fret_id <= max_fret
            invariant
                frets@ == self.fret_seq(),
                frets@.len() == STRING_COUNT,
                max_fret == self.max_fret(),
                max_fret < u8::MAX,
                min_fret == self.first_finger_fret(),
                min_fret >= 1,
                barre == self.barre(),
                pressed == pressed_strings,
                pressed == self.pressed_count(),
                min_fret <= fret_id <= max_fret + 1,
                fingering@.len() == STRING_COUNT,
                forall|i: int| 0 <= i < STRING_COUNT ==> fingering@[i] <= FINGER_COUNT,
                finger >= 1,
                fret_id <= max_fret ==> finger <= FINGER_COUNT,
                finger <= FINGER_COUNT + 1,
                used_strings == count_between(*self, min_fret as int, fret_id - 1),
                used_strings <= pressed_strings,
                place_from(self.fret_seq(), min_fret as int, max_fret as int, barre, pressed, start)
                    == place_from(
                    self.fret_seq(),
                    fret_id as int,
                    max_fret as int,
                    barre,
                    pressed,
                    (fingering@, finger as int, prev_finger as int, used_strings as int),
                ),
            decreases max_fret + 1 - fret_id,
        {
            let ghost st0: FingerState = (fingering@, finger as int, prev_finger as int, used_strings as int);
            let mut i: usize = 0;
            while i < STRING_COUNT
                invariant
                    i <= STRING_COUNT,
                    frets@ == self.fret_seq(),
                    frets@.len() == STRING_COUNT,
                    min_fret >= 1,
                    min_fret <= fret_id <= max_fret,
                    max_fret == self.max_fret(),
                    fingering@.len() == STRING_COUNT,
                    forall|j: int| 0 <= j < STRING_COUNT ==> fingering@[j] <= FINGER_COUNT,
                    1 <= finger <= FINGER_COUNT,
                    used_strings == count_between(*self, min_fret as int, fret_id - 1)
                        + count_at_before(*self, fret_id as int, i as int),
                    place_on_fret(self.fret_seq(), fret_id as int, barre, st0, i as nat) == (
                        fingering@,
                        finger as int,
                        prev_finger as int,
                        used_strings as int,
                    ),
                decreases STRING_COUNT - i,
            {
                if frets[i] == fret_id {
                    fingering.set(i, finger as u8);
                    used_strings = used_strings + 1;
                    if (!barre || finger > 1) && finger < FINGER_COUNT {
                        finger = finger + 1;
                    }
                }
                i = i + 1;
            }
            proof {
                assert(count_between(*self, min_fret as int, fret_id as int) == count_between(
                    *self,
                    min_fret as int,
                    fret_id - 1,
                ) + count_at_before(*self, fret_id as int, 4));
                if fret_id < max_fret {
                    assert(count_between(*self, min_fret as int, fret_id as int) < pressed);
                } else {
                    assert(count_between(*self, min_fret as int, fret_id as int) <= pressed);
                }
            }
            let remaining_fingers = FINGER_COUNT - finger;
            let remaining_strings = pressed_strings - used_strings;
            if finger == prev_finger && remaining_fingers >= remaining_strings {
                finger = finger + 1;
            }
            prev_finger = finger;
            fret_id = fret_id + 1;
        }
        [fingering[0], fingering[1], fingering[2], fingering[3]]
    }

    /// The distance in semitones and the distance of the fingerings between
    /// this and another voicing.
    pub fn distance(&self, other: Voicing) -> (d: Distance)
        requires
            self.semitone_dist(other) <= u8::MAX,
            self.fingering_dist(other) <= u8::MAX,
            self.min_pressed() + 3 <= u8::MAX,
            self.max_fret() < u8::MAX,
            other.min_pressed() + 3 <= u8::MAX,
            other.max_fret() < u8::MAX,
        ensures
            d == Distance(self.semitone_dist(other) as u8, self.fingering_dist(other) as u8),
    {
        let semitone_distance = self.semitone_distance(other);
        let fingering_distance = self.fingering_distance(other);
        Distance::new(semitone_distance, fingering_distance)
    }

    /// The effort of moving from the fingering of this voicing to that of another one.
    pub fn fingering_distance(&self, other: Voicing) -> (d: u8)
        requires
            self.fingering_dist(other) <= u8::MAX,
            self.min_pressed() + 3 <= u8::MAX,
            self.max_fret() < u8::MAX,
            other.min_pressed() + 3 <= u8::MAX,
            other.max_fret() < u8::MAX,
        ensures
            d == self.fingering_dist(other),
    {
        let l = Fingering::from_voicing(*self);
        let r = Fingering::from_voicing(other);
        l.distance(r)
    }

    /// Whether this voicing comes before `other`: lower lowest pressed fret
    /// first, then frets compared from the last string to the first one.
    pub fn lt(&self, other: &Voicing) -> (r: bool)
        ensures
            r == self.before(*other),
    {
        let m1 = self.get_min_pressed_fret();
        let m2 = other.get_min_pressed_fret();
        if m1 != m2 {
            return m1 < m2;
        }
        let a = self.frets();
        let b = other.frets();
        if a[3] != b[3] {
            a[3] < b[3]
        } else if a[2] != b[2] {
            a[2] < b[2]
        } else if a[1] != b[1] {
            a[1] < b[1]
        } else {
            a[0] < b[0]
        }
    }

    /// The number of strings pressed down when playing this voicing.
    pub fn count_pressed_strings(&self) -> (n: usize)
        ensures
            n == self.pressed_count(),
    {
        let mut n: usize = 0;
        if self.uke_strings[0].1 > 0 {
            n = n + 1;
        }
        if self.uke_strings[1].1 > 0 {
            n = n + 1;
        }
        if self.uke_strings[2].1 > 0 {
            n = n + 1;
        }
        if self.uke_strings[3].1 > 0 {
            n = n + 1;
        }
        n
    }

    /// The lowest fret at which a string is pressed down (0 if no string is pressed).
    pub fn get_min_pressed_fret(&self) -> (r: FretID)
        ensures
            r == self.min_pressed(),
    {
        pmin(
            pmin(self.uke_strings[0].1, self.uke_strings[1].1),
            pmin(self.uke_strings[2].1, self.uke_strings[3].1),
        )
    }

    /// The lowest fret involved in playing the voicing (0 if a string is open).
    pub fn get_min_fret(&self) -> (r: FretID)
        ensures
            r == self.min_fret(),
    {
        let a = if self.uke_strings[0].1 <= self.uke_strings[1].1 {
            self.uke_strings[0].1
        } else {
            self.uke_strings[1].1
        };
        let b = if self.uke_strings[2].1 <= self.uke_strings[3].1 {
            self.uke_strings[2].1
        } else {
            self.uke_strings[3].1
        };
        if a <= b {
            a
        } else {
            b
        }
    }

    /// The highest fret involved in playing the voicing.
    pub fn get_max_fret(&self) -> (r: FretID)
        ensures
            r == self.max_fret(),
    {
        let a = if self.uke_strings[0].1 >= self.uke_strings[1].1 {
            self.uke_strings[0].1
        } else {
            self.uke_strings[1].1
        };
        let b = if self.uke_strings[2].1 >= self.uke_strings[3].1 {
            self.uke_strings[2].1
        } else {
            self.uke_strings[3].1
        };
        if a >= b {
            a
        } else {
            b
        }
    }

    /// The number of frets spanned by the voicing, from the lowest pressed fret
    /// to the highest one (0 if no string is pressed).
    pub fn get_span(&self) -> (r: FretID)
        ensures
            r == self.span(),
    {
        let max_fret = self.get_max_fret();
        if max_fret == 0 {
            0
        } else {
            proof {
                lemma_min_pressed_le_max(*self);
            }
            max_fret - self.get_min_pressed_fret() + 1
        }
    }

    /// The distance in semitones between this and another voicing: the sum of
    /// the differences between the frets pressed on the same string.
    pub fn semitone_distance(&self, other: Voicing) -> (d: u8)
        requires
            self.semitone_dist(other) <= u8::MAX,
        ensures
            d == self.semitone_dist(other),
    {
        let d0 = abs_diff(self.uke_strings[0].1, other.uke_strings[0].1);
        let d1 = abs_diff(self.uke_strings[1].1, other.uke_strings[1].1);
        let d2 = abs_diff(self.uke_strings[2].1, other.uke_strings[2].1);
        let d3 = abs_diff(self.uke_strings[3].1, other.uke_strings[3].1);
        d0 + d1 + d2 + d3
    }

    /// Whether the voicing contains exactly the notes needed to play `chord`
    /// (notes being compared by the pitch class they sound).
    pub fn spells_out(&self, chord: &Chord) -> (r: bool)
        ensures
            r == self.spells(*chord),
    {
        let played = chord.played_notes();
        let notes = self.notes();
        proof {
            lemma_voicing_len(*self);
        }
        let mut i: usize = 0;
        while i < notes.len()
            invariant
                i <= notes.len(),
                notes@ == self.note_seq(),
                notes@.len() == STRING_COUNT,
                played@ == chord.played(),
                forall|k: int| 0 <= k < i ==> #[trigger] pitch_in(self.note_seq()[k], chord.played()),
            decreases notes.len() - i,
        {
            if !contains_pitch(&played, &notes[i]) {
                return false;
            }
            i = i + 1;
        }
        let mut j: usize = 0;
        while j < played.len()
            invariant
                j <= played.len(),
                notes@ == self.note_seq(),
                played@ == chord.played(),
                forall|k: int|
                    0 <= k < STRING_COUNT ==> #[trigger] pitch_in(self.note_seq()[k], chord.played()),
                forall|m: int| 0 <= m < j ==> #[trigger] pitch_in(chord.played()[m], self.note_seq()),
            decreases played.len() - j,
        {
            if !contains_pitch(&notes, &played[j]) {
                return false;
            }
            j = j + 1;
        }
        true
    }
}

impl Default for Voicing {
    /// The voicing of four open strings in C tuning.
    fn default() -> (v: Voicing)
        ensures
            forall|i: int| 0 <= i < STRING_COUNT ==> #[trigger] v@[i] == (
                Tuning::C.root_seq()[i],
                0u8,
                Tuning::C.root_seq()[i],
            ),
    {
        Voicing::new(FretPattern::from_frets([0, 0, 0, 0]), Tuning::C)
    }
}

/// Some note of `notes` has pitch class `p`.
pub open spec fn pitch_class_present(notes: Seq<Note>, p: PitchClass) -> bool {
    exists|j: int| 0 <= j < notes.len() && (#[trigger] notes[j]).pitch_class == p
}

/// The pitch classes, from C to B.
pub open spec fn all_pitch_classes() -> Seq<PitchClass> {
    Seq::new(12, |i: int| PitchClass::of(i))
}

/// The pitch classes of the notes, from C to B, each once.
pub open spec fn present_pitch_classes(notes: Seq<Note>) -> Seq<PitchClass> {
    all_pitch_classes().filter(|p: PitchClass| pitch_class_present(notes, p))
}

/// The sequence rotated to the left by `k` places.
pub open spec fn rotation<T>(s: Seq<T>, k: int) -> Seq<T> {
    s.skip(k) + s.take(k)
}

/// The chords recognised in the first `k` rotations of the pitch classes:
/// for the rotation starting at each pitch class in turn, the chord type of
/// the rotated list (if there is one) with that pitch class as root, spelled sharp.
pub open spec fn rotation_chords(pcs: Seq<PitchClass>, k: nat) -> Seq<(Note, ChordType)>
    decreases k,
{
    if k == 0 {
        Seq::empty()
    } else {
        let prev = rotation_chords(pcs, (k - 1) as nat);
        match chord_type_of_pitches(rotation(pcs, k - 1)) {
            Some(ct) => prev.push((Note::of_parts(Note::sharp_of(pcs[k - 1])), ct)),
            None => prev,
        }
    }
}

/// The pitch classes are in strictly increasing order of their numbers.
pub open spec fn increasing_pitches(s: Seq<PitchClass>) -> bool {
    forall|i: int, j: int| 0 <= i < j < s.len() ==> (#[trigger] s[i]).value() < (#[trigger] s[j]).value()
}

/// Filtering pitch classes in increasing order keeps them in increasing
/// order, and keeps only pitch classes of the list.
proof fn lemma_filter_increasing(s: Seq<PitchClass>, pred: spec_fn(PitchClass) -> bool)
    requires
        increasing_pitches(s),
    ensures
        increasing_pitches(s.filter(pred)),
        forall|i: int| 0 <= i < s.filter(pred).len() ==> s.contains(#[trigger] s.filter(pred)[i]),
    decreases s.len(),
{
    if s.len() > 0 {
        let t = s.drop_last();
        assert(increasing_pitches(t));
        lemma_filter_increasing(t, pred);
        let f = s.filter(pred);
        let ft = t.filter(pred);
        assert(t.push(s.last()) =~= s);
        t.lemma_filter_push(s.last(), pred);
        assert forall|i: int| 0 <= i < f.len() implies s.contains(#[trigger] f[i]) by {
            if i < ft.len() {
                assert(f[i] == ft[i]);
                let m = choose|m: int| 0 <= m < t.len() && t[m] == ft[i];
                assert(s[m] == f[i]);
            } else {
                assert(s[s.len() - 1] == f[i]);
            }
        }
        if pred(s.last()) {
            assert forall|i: int, j: int| 0 <= i < j < f.len() implies (#[trigger] f[i]).value() < (
            #[trigger] f[j]).value() by {
                assert(f[i] == ft[i]);
                if j < ft.len() {
                    assert(f[j] == ft[j]);
                } else {
                    let m = choose|m: int| 0 <= m < t.len() && t[m] == ft[i];
                    assert(s[m] == t[m]);
                    assert(s[s.len() - 1] == f[j]);
                }
            }
        }
    }
}

/// The roots of the chords found in the first `k` rotations are the first
/// `k` pitch classes, in order.
proof fn lemma_rotation_roots(pcs: Seq<PitchClass>, k: nat)
    requires
        increasing_pitches(pcs),
        k <= pcs.len(),
    ensures
        forall|i: int|
            0 <= i < rotation_chords(pcs, k).len() ==> exists|m: int|
                0 <= m < k && (#[trigger] rotation_chords(pcs, k)[i]).0.pitch_class == pcs[m],
        forall|i: int, j: int|
            0 <= i < j < rotation_chords(pcs, k).len() ==> (#[trigger] rotation_chords(pcs, k)[i]).0.pitch_class.value()
                < (#[trigger] rotation_chords(pcs, k)[j]).0.pitch_class.value(),
    decreases k,
{
    if k > 0 {
        lemma_rotation_roots(pcs, (k - 1) as nat);
        let prev = rotation_chords(pcs, (k - 1) as nat);
        let r = rotation_chords(pcs, k);
        assert forall|i: int| 0 <= i < r.len() implies exists|m: int|
            0 <= m < k && (#[trigger] r[i]).0.pitch_class == pcs[m] by {
            if i < prev.len() {
                assert(r[i] == prev[i]);
                let m = choose|m: int| 0 <= m < k - 1 && prev[i].0.pitch_class == pcs[m];
            } else {
                assert(r[i].0.pitch_class == pcs[k - 1]);
            }
        }
        assert forall|i: int, j: int| 0 <= i < j < r.len() implies (#[trigger] r[i]).0.pitch_class.value() < (
        #[trigger] r[j]).0.pitch_class.value() by {
            assert(r[i] == prev[i]);
            if j < prev.len() {
                assert(r[j] == prev[j]);
            } else {
                let m = choose|m: int| 0 <= m < k - 1 && prev[i].0.pitch_class == pcs[m];
                assert(r[j].0.pitch_class == pcs[k - 1]);
            }
        }
    }
}

/// The chords that a voicing makes up come in increasing order of their
/// roots' pitch classes, each root once.
pub proof fn law_chords_ordered_by_root(v: Voicing)
    ensures
        forall|i: int, j: int|
            0 <= i < j < v.chord_seq().len() ==> (#[trigger] v.chord_seq()[i]).0.pitch_class.value()
                < (#[trigger] v.chord_seq()[j]).0.pitch_class.value(),
{
    let all = all_pitch_classes();
    assert forall|i: int, j: int| 0 <= i < j < all.len() implies (#[trigger] all[i]).value() < (
    #[trigger] all[j]).value() by {
        crate::pitch_class::lemma_value_of(i);
        crate::pitch_class::lemma_value_of(j);
    }
    let pred = |p: PitchClass| pitch_class_present(v.note_seq(), p);
    lemma_filter_increasing(all, pred);
    let pcs = present_pitch_classes(v.note_seq());
    assert(pcs == all.filter(pred));
    all.lemma_filter_len(pred);
    lemma_rotation_roots(pcs, pcs.len());
}

/// What scanning the strings finds: the strings pressed at fret `min` are
/// counted among the pressed ones, and no open string follows one of them.
proof fn lemma_barre_scan(f: Seq<u8>, min: u8, k: nat)
    requires
        k <= f.len(),
        min > 0,
    ensures
        match barre_scan(f, min, k) {
            None => exists|i: int, j: int| 0 <= i < j < k && f[i] == min && f[j] == 0,
            Some((c, p)) => {
                &&& c <= p.len()
                &&& c == count_fret(f, min, k)
                &&& p.len() == count_pressed(f, k)
                &&& forall|i: int, j: int| 0 <= i < j < k && f[i] == min ==> f[j] != 0
            },
        },
    decreases k,
{
    if k > 0 {
        let km = (k - 1) as nat;
        lemma_barre_scan(f, min, km);
        match barre_scan(f, min, km) {
            None => {
                let (i, j) = choose|i: int, j: int| 0 <= i < j < km && f[i] == min && f[j] == 0;
                assert(0 <= i < j < k && f[i] == min && f[j] == 0);
            },
            Some((c, p)) => {
                if f[k - 1] == 0 {
                    if c > 0 {
                        lemma_count_fret_witness(f, min, km);
                        let i = choose|i: int| 0 <= i < km && f[i] == min;
                        assert(0 <= i < k - 1 < k && f[i] == min && f[k - 1] == 0);
                    } else {
                        assert forall|i: int, j: int| 0 <= i < j < k && f[i] == min implies f[j] != 0 by {
                            if j == k - 1 {
                                lemma_count_fret_pos(f, min, km, i);
                            }
                        }
                    }
                }
            },
        }
    }
}

/// A fret `x` among the first `k` is counted.
proof fn lemma_count_fret_pos(f: Seq<u8>, x: u8, k: nat, i: int)
    requires
        0 <= i < k <= f.len(),
        f[i] == x,
    ensures
        count_fret(f, x, k) > 0,
    decreases k,
{
    if i < k - 1 {
        lemma_count_fret_pos(f, x, (k - 1) as nat, i);
    }
}

/// A fret that is counted occurs among the first `k`.
proof fn lemma_count_fret_witness(f: Seq<u8>, x: u8, k: nat)
    requires
        k <= f.len(),
        count_fret(f, x, k) > 0,
    ensures
        exists|i: int| 0 <= i < k && f[i] == x,
    decreases k,
{
    if f[k - 1] != x {
        lemma_count_fret_witness(f, x, (k - 1) as nat);
        let i = choose|i: int| 0 <= i < k - 1 && f[i] == x;
        assert(0 <= i < k && f[i] == x);
    }
}

/// How many of the first `k` frets are `x`.
pub open spec fn count_fret(f: Seq<u8>, x: u8, k: nat) -> nat
    decreases k,
{
    if k == 0 {
        0
    } else {
        count_fret(f, x, (k - 1) as nat) + if f[k - 1] == x {
            1nat
        } else {
            0nat
        }
    }
}

/// How many of the first `k` frets are pressed.
pub open spec fn count_pressed(f: Seq<u8>, k: nat) -> nat
    decreases k,
{
    if k == 0 {
        0
    } else {
        count_pressed(f, (k - 1) as nat) + if f[k - 1] != 0 {
            1nat
        } else {
            0nat
        }
    }
}

/// A barre takes at least three pressed strings, at least two of them on the
/// lowest pressed fret, and no string is played open after a string pressed
/// on the lowest fret.
pub proof fn law_barre_shape(v: Voicing)
    requires
        v.barre(),
    ensures
        v.pressed_count() >= 3,
        count_fret(v.fret_seq(), v.min_pressed(), STRING_COUNT as nat) >= 2,
        forall|i: int, j: int| 0 <= i < j < STRING_COUNT && v.fret(i) == v.min_pressed() ==> v.fret(j) != 0,
{
    let f = v.fret_seq();
    lemma_voicing_len(v);
    assert(f[0] == v.fret(0) && f[1] == v.fret(1) && f[2] == v.fret(2) && f[3] == v.fret(3));
    reveal_with_fuel(count_pressed, 5);
    if v.min_pressed() == 0 {
        assert(v.fret(0) == 0 && v.fret(1) == 0 && v.fret(2) == 0 && v.fret(3) == 0);
        reveal_with_fuel(barre_scan, 5);
        assert(barre_scan(f, 0, 4) == Some((0nat, Seq::<u8>::empty())));
    } else {
        lemma_barre_scan(f, v.min_pressed(), 4);
    }
}

/// The frets `p`, each moved up by `k`.
pub open spec fn moved_up(p: Seq<u8>, k: u8) -> Seq<u8> {
    p.map_values(|x: u8| (x + k) as u8)
}

/// Moving the frets and the alternating pattern up together keeps the count.
proof fn lemma_alternating_moved(p: Seq<u8>, a: int, b: int, k: u8)
    requires
        forall|i: int| 0 <= i < p.len() ==> #[trigger] p[i] + k <= u8::MAX,
    ensures
        alternating_count(moved_up(p, k), a + k, b + k) == alternating_count(p, a, b),
    decreases p.len(),
{
    if p.len() > 0 {
        assert(moved_up(p, k).drop_last() =~= moved_up(p.drop_last(), k));
        lemma_alternating_moved(p.drop_last(), a, b, k);
    }
}

/// Scanning frets moved up by `k` for the lowest fret moved up by `k` finds
/// the same count and the frets moved up.
proof fn lemma_barre_scan_moved(f: Seq<u8>, g: Seq<u8>, min: u8, k: u8, n: nat)
    requires
        n <= f.len(),
        n <= g.len(),
        min > 0,
        min + k <= u8::MAX,
        forall|i: int| 0 <= i < n ==> #[trigger] g[i] == if f[i] == 0 { 0 } else { f[i] + k },
    ensures
        barre_scan(g, (min + k) as u8, n) == match barre_scan(f, min, n) {
            None => None,
            Some((c, p)) => Some((c, moved_up(p, k))),
        },
        match barre_scan(f, min, n) {
            None => true,
            Some((c, p)) => forall|i: int| 0 <= i < p.len() ==> #[trigger] p[i] + k <= u8::MAX,
        },
    decreases n,
{
    if n > 0 {
        let m = (n - 1) as nat;
        lemma_barre_scan_moved(f, g, min, k, m);
        match barre_scan(f, min, m) {
            None => {},
            Some((c, p)) => {
                if f[n - 1] != 0 {
                    assert(moved_up(p.push(f[n - 1]), k) =~= moved_up(p, k).push(g[n - 1]));
                }
            },
        }
    }
}

/// Moving a voicing up the fretboard keeps whether it takes a barre: pressing
/// each pressed string `k` frets higher and leaving the open strings open
/// changes nothing in the fingering.
pub proof fn law_barre_moves(v: Voicing, w: Voicing, k: u8)
    requires
        forall|i: int|
            0 <= i < STRING_COUNT ==> #[trigger] w.fret(i) == if v.fret(i) == 0 {
                0
            } else {
                v.fret(i) + k
            },
    ensures
        w.barre() == v.barre(),
{
    lemma_voicing_len(v);
    lemma_voicing_len(w);
    let f = v.fret_seq();
    let g = w.fret_seq();
    assert(w.fret(0) == if v.fret(0) == 0 { 0 } else { v.fret(0) + k });
    assert(w.fret(1) == if v.fret(1) == 0 { 0 } else { v.fret(1) + k });
    assert(w.fret(2) == if v.fret(2) == 0 { 0 } else { v.fret(2) + k });
    assert(w.fret(3) == if v.fret(3) == 0 { 0 } else { v.fret(3) + k });
    if v.min_pressed() == 0 {
        assert(f =~= g);
        assert(w.min_pressed() == 0);
    } else {
        let min = v.min_pressed();
        assert(w.min_pressed() == min + k);
        lemma_barre_scan_moved(f, g, min, k, 4);
        match barre_scan(f, min, 4) {
            None => {},
            Some((c, p)) => {
                lemma_alternating_moved(p, min as int, min + 1, k);
                lemma_alternating_moved(p, min as int, min + 2, k);
                lemma_alternating_moved(p, min as int, min + 3, k);
                assert(moved_up(p, k).len() == p.len());
            },
        }
    }
}

/// A voicing is at distance zero from itself: no fret moves and no finger
/// moves.
pub proof fn law_distance_to_itself(v: Voicing)
    ensures
        v.semitone_dist(v) == 0,
        v.fingering_dist(v) == 0,
{
    let p = v.finger_positions();
    lemma_position_dist_same(p[0]);
    lemma_position_dist_same(p[1]);
    lemma_position_dist_same(p[2]);
    lemma_position_dist_same(p[3]);
}

/// The distance from one voicing to another is the distance back: both the
/// semitone distance and the fingering distance are symmetric.
pub proof fn law_distance_symmetric(v: Voicing, w: Voicing)
    ensures
        v.semitone_dist(w) == w.semitone_dist(v),
        v.fingering_dist(w) == w.fingering_dist(v),
{
    let p = v.finger_positions();
    let q = w.finger_positions();
    lemma_position_dist_swap(p[0], q[0]);
    lemma_position_dist_swap(p[1], q[1]);
    lemma_position_dist_swap(p[2], q[2]);
    lemma_position_dist_swap(p[3], q[3]);
}

/// The semitone distance is zero exactly between voicings that press the
/// same frets, and going through a third voicing never makes it shorter.
pub proof fn law_semitone_distance(a: Voicing, b: Voicing, c: Voicing)
    ensures
        a.semitone_dist(b) >= 0,
        a.semitone_dist(b) == 0 <==> a.fret_seq() == b.fret_seq(),
        a.semitone_dist(c) <= a.semitone_dist(b) + b.semitone_dist(c),
{
    lemma_voicing_len(a);
    lemma_voicing_len(b);
    let fa = a.fret_seq();
    let fb = b.fret_seq();
    assert(fa[0] == a.fret(0) && fa[1] == a.fret(1) && fa[2] == a.fret(2) && fa[3] == a.fret(3));
    assert(fb[0] == b.fret(0) && fb[1] == b.fret(1) && fb[2] == b.fret(2) && fb[3] == b.fret(3));
    if a.semitone_dist(b) == 0 {
        assert(fa =~= fb);
    }
}

proof fn lemma_position_dist_same(a: crate::FingerPosition)
    ensures
        crate::fingering::position_dist(a, a) == 0,
{
}

proof fn lemma_position_dist_swap(a: crate::FingerPosition, b: crate::FingerPosition)
    ensures
        crate::fingering::position_dist(a, b) == crate::fingering::position_dist(b, a),
{
}

/// Voicings with the same strings are equal.
pub proof fn lemma_view_eq(v: Voicing, w: Voicing)
    requires
        v@ == w@,
    ensures
        v == w,
{
    assert(v.uke_strings@[0] == w.uke_strings@[0]);
    assert(v.uke_strings@[1] == w.uke_strings@[1]);
    assert(v.uke_strings@[2] == w.uke_strings@[2]);
    assert(v.uke_strings@[3] == w.uke_strings@[3]);
    assert(v.uke_strings =~= w.uke_strings);
}

/// Insert `x` into `s` in front of the first voicing that comes after it.
pub open spec fn insert_voicing(s: Seq<Voicing>, x: Voicing) -> Seq<Voicing>
    decreases s.len(),
{
    if s.len() == 0 {
        seq![x]
    } else if x.before(s[0]) {
        seq![x] + s
    } else {
        seq![s[0]] + insert_voicing(s.drop_first(), x)
    }
}

/// The voicings sorted by the voicing order; voicings that are equal in
/// that order keep their relative order.
pub open spec fn sort_voicings(s: Seq<Voicing>) -> Seq<Voicing>
    decreases s.len(),
{
    if s.len() == 0 {
        s
    } else {
        insert_voicing(sort_voicings(s.drop_last()), s.last())
    }
}

proof fn lemma_insert_at(s: Seq<Voicing>, x: Voicing, j: int)
    requires
        0 <= j <= s.len(),
        forall|k: int| 0 <= k < j ==> !x.before(#[trigger] s[k]),
        j < s.len() ==> x.before(s[j]),
    ensures
        insert_voicing(s, x) == s.insert(j, x),
    decreases s.len(),
{
    if s.len() == 0 {
        assert(s.insert(j, x) =~= seq![x]);
    } else if j == 0 {
        assert(seq![x] + s =~= s.insert(0, x));
    } else {
        assert(!x.before(s[0]));
        let t = s.drop_first();
        assert forall|k: int| 0 <= k < j - 1 implies !x.before(#[trigger] t[k]) by {
            assert(t[k] == s[k + 1]);
        }
        lemma_insert_at(t, x, j - 1);
        assert(seq![s[0]] + t.insert(j - 1, x) =~= s.insert(j, x));
    }
}

/// Inserting a voicing adds it and keeps the others.
pub proof fn lemma_insert_voicing_members(s: Seq<Voicing>, x: Voicing)
    ensures
        insert_voicing(s, x).len() == s.len() + 1,
        forall|k: int|
            0 <= k < insert_voicing(s, x).len() ==> #[trigger] insert_voicing(s, x)[k] == x || s.contains(
                insert_voicing(s, x)[k],
            ),
    decreases s.len(),
{
    let r = insert_voicing(s, x);
    if s.len() == 0 {
    } else if x.before(s[0]) {
        assert forall|k: int| 0 <= k < r.len() implies #[trigger] r[k] == x || s.contains(r[k]) by {
            if k > 0 {
                assert(r[k] == s[k - 1]);
            }
        }
    } else {
        let t = s.drop_first();
        lemma_insert_voicing_members(t, x);
        let rt = insert_voicing(t, x);
        assert forall|k: int| 0 <= k < r.len() implies #[trigger] r[k] == x || s.contains(r[k]) by {
            if k > 0 {
                assert(r[k] == rt[k - 1]);
                if rt[k - 1] != x {
                    let j = choose|j: int| 0 <= j < t.len() && t[j] == rt[k - 1];
                    assert(s[j + 1] == r[k]);
                }
            } else {
                assert(s[0] == r[0]);
            }
        }
    }
}

/// Sorting voicings brings in no voicing that was not there.
pub proof fn lemma_sort_voicings_members(s: Seq<Voicing>)
    ensures
        sort_voicings(s).len() == s.len(),
        forall|k: int| 0 <= k < s.len() ==> s.contains(#[trigger] sort_voicings(s)[k]),
    decreases s.len(),
{
    if s.len() > 0 {
        let t = s.drop_last();
        lemma_sort_voicings_members(t);
        lemma_insert_voicing_members(sort_voicings(t), s.last());
        let r = sort_voicings(s);
        assert forall|k: int| 0 <= k < s.len() implies s.contains(#[trigger] r[k]) by {
            if r[k] == s.last() {
                assert(s[s.len() - 1] == r[k]);
            } else {
                let st = sort_voicings(t);
                let j = choose|j: int| 0 <= j < st.len() && st[j] == r[k];
                let m = choose|m: int| 0 <= m < t.len() && t[m] == st[j];
                assert(s[m] == r[k]);
            }
        }
    }
}

/// No voicing of the list comes after a later one.
pub open spec fn voicings_sorted(s: Seq<Voicing>) -> bool {
    forall|i: int, j: int| 0 <= i < j < s.len() ==> !(#[trigger] s[j]).before(#[trigger] s[i])
}

/// Inserting a voicing into a sorted list keeps it sorted.
proof fn lemma_insert_voicing_sorted(s: Seq<Voicing>, x: Voicing)
    requires
        voicings_sorted(s),
    ensures
        voicings_sorted(insert_voicing(s, x)),
    decreases s.len(),
{
    lemma_insert_voicing_members(s, x);
    let r = insert_voicing(s, x);
    if s.len() == 0 {
    } else if x.before(s[0]) {
        assert forall|i: int, j: int| 0 <= i < j < r.len() implies !(#[trigger] r[j]).before(#[trigger] r[i]) by {
            assert(r[j] == s[j - 1]);
            if i > 0 {
                assert(r[i] == s[i - 1]);
            } else if j > 1 {
                assert(!s[j - 1].before(s[0]));
            }
        }
    } else {
        let t = s.drop_first();
        lemma_insert_voicing_sorted(t, x);
        lemma_insert_voicing_members(t, x);
        let rt = insert_voicing(t, x);
        assert forall|i: int, j: int| 0 <= i < j < r.len() implies !(#[trigger] r[j]).before(#[trigger] r[i]) by {
            assert(r[j] == rt[j - 1]);
            if i > 0 {
                assert(r[i] == rt[i - 1]);
            } else {
                assert(r[0] == s[0]);
                if rt[j - 1] != x {
                    let m = choose|m: int| 0 <= m < t.len() && t[m] == rt[j - 1];
                    assert(s[m + 1] == rt[j - 1]);
                }
            }
        }
    }
}

/// Sorting voicings gives a sorted list.
pub proof fn lemma_sort_voicings_sorted(s: Seq<Voicing>)
    ensures
        voicings_sorted(sort_voicings(s)),
    decreases s.len(),
{
    if s.len() > 0 {
        lemma_sort_voicings_sorted(s.drop_last());
        lemma_insert_voicing_sorted(sort_voicings(s.drop_last()), s.last());
    }
}

/// Insert a voicing into a sorted list of voicings, behind all voicings that
/// do not come after it.
pub fn insert_sorted(v: &mut Vec<Voicing>, x: Voicing)
    ensures
        final(v)@ == insert_voicing(old(v)@, x),
{
    let mut j: usize = 0;
    while j < v.len()
        invariant
            j <= v.len(),
            v@ == old(v)@,
            forall|k: int| 0 <= k < j ==> !x.before(#[trigger] v@[k]),
        ensures
            j <= v.len(),
            v@ == old(v)@,
            forall|k: int| 0 <= k < j ==> !x.before(#[trigger] v@[k]),
            j < v.len() ==> x.before(v@[j as int]),
        decreases v.len() - j,
    {
        if x.lt(&v[j]) {
            break;
        }
        j = j + 1;
    }
    proof {
        lemma_insert_at(v@, x, j as int);
    }
    v.insert(j, x);
}

/// Some note of `s` has the same pitch class as `n`: it sounds the same,
/// however it is spelled.
pub open spec fn pitch_in(n: Note, s: Seq<Note>) -> bool {
    exists|j: int| 0 <= j < s.len() && (#[trigger] s[j]).pitch_class == n.pitch_class
}

/// The difference between two frets.
pub open spec fn fret_diff(a: u8, b: u8) -> int {
    if a >= b {
        a - b
    } else {
        b - a
    }
}

/// The difference between two frets.
fn abs_diff(a: u8, b: u8) -> (d: u8)
    ensures
        d == fret_diff(a, b),
{
    if a >= b {
        a - b
    } else {
        b - a
    }
}

/// The smaller of two pressed frets, where 0 stands for "no pressed fret".
fn pmin(a: u8, b: u8) -> (r: u8)
    ensures
        r == pressed_min(a, b),
{
    if a == 0 {
        b
    } else if b == 0 {
        a
    } else if a <= b {
        a
    } else {
        b
    }
}

/// Once an open string follows a string pressed at the lowest fret, the scan stops.
proof fn lemma_barre_scan_none(f: Seq<u8>, min: u8, k: nat)
    requires
        k >= 1,
        k <= f.len(),
        barre_scan(f, min, (k - 1) as nat) matches Some((c, _)) && c > 0,
        f[k - 1] == 0,
    ensures
        forall|m: nat| k <= m <= f.len() ==> #[trigger] barre_scan(f, min, m) is None,
{
    assert forall|m: nat| k <= m <= f.len() implies #[trigger] barre_scan(f, min, m) is None by {
        lemma_barre_scan_none_at(f, min, k, m);
    }
}

proof fn lemma_barre_scan_none_at(f: Seq<u8>, min: u8, k: nat, m: nat)
    requires
        k >= 1,
        k <= m,
        barre_scan(f, min, (k - 1) as nat) matches Some((c, _)) && c > 0,
        f[k - 1] == 0,
    ensures
        barre_scan(f, min, m) is None,
    decreases m,
{
    if m > k {
        lemma_barre_scan_none_at(f, min, k, (m - 1) as nat);
    }
}

/// How many of the frets agree with the alternating pattern a, b, a, b, ...
fn count_alternating(p: &Vec<u8>, a: u8, b: u8) -> (n: usize)
    ensures
        n == alternating_count(p@, a as int, b as int),
{
    let mut n: usize = 0;
    let mut k: usize = 0;
    while k < p.len()
        invariant
            k <= p.len(),
            n <= k,
            n == alternating_count(p@.take(k as int), a as int, b as int),
        decreases p.len() - k,
    {
        proof {
            assert(p@.take(k + 1).drop_last() =~= p@.take(k as int));
        }
        let expected = if k % 2 == 0 {
            a
        } else {
            b
        };
        if p[k] == expected {
            n = n + 1;
        }
        k = k + 1;
    }
    assert(p@.take(p.len() as int) =~= p@);
    n
}

/// The lowest pressed fret is at most the highest fret.
pub proof fn lemma_min_pressed_le_max(v: Voicing)
    ensures
        v.min_pressed() <= v.max_fret(),
        v.max_fret() > 0 ==> v.min_pressed() > 0,
{
}

/// Whether some note of the list has the same pitch class as `n`.
fn contains_pitch(v: &Vec<Note>, n: &Note) -> (r: bool)
    ensures
        r == pitch_in(*n, v@),
{
    let mut j: usize = 0;
    while j < v.len()
        invariant
            j <= v.len(),
            forall|m: int| 0 <= m < j ==> (#[trigger] v@[m]).pitch_class != n.pitch_class,
        decreases v.len() - j,
    {
        if v[j].pitch_class == n.pitch_class {
            return true;
        }
        j = j + 1;
    }
    false
}

} // verus!
