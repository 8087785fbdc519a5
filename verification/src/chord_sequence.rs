//! Sequences of chords, such as "C F G".

use vstd::prelude::*;

use crate::chord::{parse_chord, Chord};
use crate::text::{chars_of, string_of_chars};

verus! {

/// Error for strings that cannot be parsed into a chord sequence.
#[derive(Debug)]
pub struct ParseChordSequenceError;

impl ParseChordSequenceError {
    /// The error message.
    pub fn to_string(&self) -> (s: String)
        ensures
            s@ == "could not parse chord sequence"@,
    {
        crate::text::string_from("could not parse chord sequence")
    }
}

/// The character is white space in the sense of Unicode (as `char::is_whitespace`).
pub open spec fn is_white_space(c: char) -> bool {
    ||| '\u{9}' <= c <= '\u{d}'
    ||| c == ' '
    ||| c == '\u{85}'
    ||| c == '\u{a0}'
    ||| c == '\u{1680}'
    ||| '\u{2000}' <= c <= '\u{200a}'
    ||| c == '\u{2028}'
    ||| c == '\u{2029}'
    ||| c == '\u{202f}'
    ||| c == '\u{205f}'
    ||| c == '\u{3000}'
}

/// The words of `s`: its maximal runs of characters that are not white space.
pub open spec fn words(s: Seq<char>) -> Seq<Seq<char>>
    decreases s.len(),
{
    if s.len() == 0 {
        Seq::empty()
    } else {
        let w = words(s.drop_last());
        let c = s.last();
        if is_white_space(c) {
            w
        } else if s.len() >= 2 && !is_white_space(s[s.len() - 2]) && w.len() > 0 {
            w.update(w.len() - 1, w.last().push(c))
        } else {
            w.push(seq![c])
        }
    }
}

/// The chords (as root and chord type) named by the words of `s`, if every word names a chord.
pub open spec fn parse_chord_sequence(s: Seq<char>) -> Option<Seq<(crate::note::Note, crate::chord_type::ChordType)>> {
    let ws = words(s);
    if forall|i: int| 0 <= i < ws.len() ==> parse_chord(#[trigger] ws[i]) is Some {
        Some(ws.map_values(|w: Seq<char>| parse_chord(w).unwrap()))
    } else {
        None
    }
}

/// A sequence of chords.
#[derive(Clone, Debug, PartialEq, Eq)]
pub struct ChordSequence {
    chords: Vec<Chord>,
}

impl View for ChordSequence {
    type V = Seq<Chord>;

    closed spec fn view(&self) -> Seq<Chord> {
        self.chords@
    }
}

impl ChordSequence {
    /// The sequence of the given chords.
    pub fn from_chords(chords: Vec<Chord>) -> (s: ChordSequence)
        ensures
            s@ == chords@,
    {
        ChordSequence { chords }
    }

    /// The chords of the sequence.
    pub fn chords(&self) -> (v: &Vec<Chord>)
        ensures
            v@ == self@,
    {
        &self.chords
    }

    /// Transpose each chord of the sequence by the given number of semitones.
    pub fn transpose(&self, semitones: i8) -> (r: ChordSequence)
        requires
            semitones != i8::MIN,
        ensures
            r@.len() == self@.len(),
            forall|i: int|
                0 <= i < r@.len() ==> {
                    let c = #[trigger] r@[i];
                    let o = self@[i];
                    &&& c.chord_type == o.chord_type
                    &&& c.wf()
                    &&& semitones < 0 ==> c.root == o.root.down((-semitones) as nat)
                    &&& semitones >= 0 ==> c.root == o.root.up(semitones as nat)
                },
    {
        let mut chords: Vec<Chord> = Vec::new();
        let mut i: usize = 0;
        while i < self.chords.len()
            invariant
                i <= self.chords.len(),
                semitones != i8::MIN,
                chords@.len() == i,
                forall|k: int|
                    0 <= k < i ==> {
                        let c = #[trigger] chords@[k];
                        let o = self.chords@[k];
                        &&& c.chord_type == o.chord_type
                        &&& c.wf()
                        &&& semitones < 0 ==> c.root == o.root.down((-semitones) as nat)
                        &&& semitones >= 0 ==> c.root == o.root.up(semitones as nat)
                    },
            decreases self.chords.len() - i,
        {
            let c = self.chords[i].transpose(semitones);
            chords.push(c);
            i = i + 1;
        }
        ChordSequence { chords }
    }

    /// Parse a chord sequence from chord names separated by white space, such
    /// as "C F G".
    pub fn from_str(s: &str) -> (r: Result<ChordSequence, ParseChordSequenceError>)
        ensures
            match r {
                Ok(seq) => parse_chord_sequence(s@) matches Some(cs) && seq@.len() == cs.len() && (
                forall|i: int|
                    0 <= i < cs.len() ==> ((#[trigger] seq@[i]).root, seq@[i].chord_type) == cs[i]
                        && seq@[i].wf()),
                Err(_) => parse_chord_sequence(s@) is None,
            },
    {
        let cs = chars_of(s);
        let ws = split_words(&cs);
        let mut chords: Vec<Chord> = Vec::new();
        let mut i: usize = 0;
        while i < ws.len()
            invariant
                i <= ws.len(),
                ws@.len() == words(s@).len(),
                cs@ == s@,
                forall|k: int| 0 <= k < ws@.len() ==> (#[trigger] ws@[k])@ == words(s@)[k],
                chords@.len() == i,
                forall|k: int|
                    0 <= k < i ==> parse_chord(words(s@)[k]) == Some(
                        ((#[trigger] chords@[k]).root, chords@[k].chord_type),
                    ) && chords@[k].wf(),
            decreases ws.len() - i,
        {
            let word = string_of_chars(&ws[i]);
            match Chord::from_str(word.as_str()) {
                Ok(c) => chords.push(c),
                Err(_) => {
                    assert(parse_chord(words(s@)[i as int]) is None);
                    return Err(ParseChordSequenceError);
                },
            }
            i = i + 1;
        }
        let r = ChordSequence { chords };
        assert forall|k: int| 0 <= k < words(s@).len() implies parse_chord(#[trigger] words(s@)[k]) is Some by {
            assert(parse_chord(words(s@)[k]) == Some((chords@[k].root, chords@[k].chord_type)));
        }
        Ok(r)
    }
}

/// Whether a character is white space.
fn white_space(c: char) -> (r: bool)
    ensures
        r == is_white_space(c),
{
    ('\u{9}' <= c && c <= '\u{d}') || c == ' ' || c == '\u{85}' || c == '\u{a0}' || c == '\u{1680}'
        || ('\u{2000}' <= c && c <= '\u{200a}') || c == '\u{2028}' || c == '\u{2029}' || c
        == '\u{202f}' || c == '\u{205f}' || c == '\u{3000}'
}

proof fn lemma_words_last(s: Seq<char>)
    requires
        s.len() > 0,
        !is_white_space(s.last()),
    ensures
        words(s).len() > 0,
        words(s).last().len() > 0,
    decreases s.len(),
{
}

/// Split characters into words separated by white space.
fn split_words(cs: &Vec<char>) -> (v: Vec<Vec<char>>)
    ensures
        v@.len() == words(cs@).len(),
        forall|k: int| 0 <= k < v@.len() ==> (#[trigger] v@[k])@ == words(cs@)[k],
{
    let mut v: Vec<Vec<char>> = Vec::new();
    let mut i: usize = 0;
    while i < cs.len()
        invariant
            i <= cs.len(),
            v@.len() == words(cs@.take(i as int)).len(),
            forall|k: int| 0 <= k < v@.len() ==> (#[trigger] v@[k])@ == words(cs@.take(i as int))[k],
        decreases cs.len() - i,
    {
        let c = cs[i];
        proof {
            assert(cs@.take(i + 1).drop_last() =~= cs@.take(i as int));
            assert(cs@.take(i + 1).last() == c);
            if i >= 1 {
                assert(cs@.take(i + 1)[i - 1] == cs@[i - 1]);
                if !is_white_space(cs@[i - 1]) {
                    assert(cs@.take(i as int).last() == cs@[i - 1]);
                    lemma_words_last(cs@.take(i as int));
                }
            }
        }
        if !white_space(c) {
            if i >= 1 && !white_space(cs[i - 1]) && v.len() > 0 {
                let last = v.len() - 1;
                let mut w = v.remove(last);
                w.push(c);
                v.push(w);
            } else {
                let mut w: Vec<char> = Vec::new();
                w.push(c);
                v.push(w);
            }
        }
        i = i + 1;
        proof {
            let t = cs@.take(i as int);
            assert forall|k: int| 0 <= k < v@.len() implies (#[trigger] v@[k])@ == words(t)[k] by {
                if !is_white_space(c) && k == v@.len() - 1 {
                    assert(v@[k]@ =~= words(t)[k]);
                }
            }
        }
    }
    assert(cs@.take(cs.len() as int) =~= cs@);
    v
}

} // verus!
