//! Fret patterns: which fret to press on each string.

use vstd::prelude::*;

use crate::chord::Chord;
use crate::pitch_class::PitchClass;
use crate::text::chars_of;
use crate::tuning::Tuning;
use crate::voicing::{fret_max, lemma_view_eq, lemma_voicing_of, pressed_min, voicing_of, Voicing};
use crate::{FretID, Semitones, UkeString, STRING_COUNT};

verus! {

/// Every fret, added to the pitch class of its string's open note in the
/// tuning, stays within a byte.
pub open spec fn frets_fit(frets: Seq<FretID>, tuning: Tuning) -> bool {
    forall|i: int|
        0 <= i < STRING_COUNT ==> tuning.root_seq()[i].pitch_class.value() + #[trigger] frets[i] <= u8::MAX
}

/// Error for strings that cannot be parsed into a fret pattern.
#[derive(Debug)]
pub struct ParseFretPatternError;

impl ParseFretPatternError {
    /// The error message.
    pub fn to_string(&self) -> (s: String)
        ensures
            s@ == "fret pattern has wrong format (should be something like 1234 or '7 8 9 10')"@,
    {
        crate::text::string_from(
            "fret pattern has wrong format (should be something like 1234 or '7 8 9 10')",
        )
    }
}

/// The value of a decimal digit character.
pub open spec fn digit_value(c: char) -> nat {
    ((c as int) - ('0' as int)) as nat
}

/// The character is one of the ASCII digits 0 to 9.
pub open spec fn is_digit(c: char) -> bool {
    '0' <= c && c <= '9'
}

/// The number written by a sequence of decimal digits.
pub open spec fn digits_value(s: Seq<char>) -> nat
    decreases s.len(),
{
    if s.len() == 0 {
        0
    } else {
        digits_value(s.drop_last()) * 10 + digit_value(s.last())
    }
}

/// All characters are decimal digits.
pub open spec fn all_digits(s: Seq<char>) -> bool {
    forall|i: int| 0 <= i < s.len() ==> is_digit(#[trigger] s[i])
}

/// A number's digits, without the `+` sign it may start with.
pub open spec fn unsigned_body(s: Seq<char>) -> Seq<char> {
    if s.len() > 0 && s[0] == '+' {
        s.skip(1)
    } else {
        s
    }
}

/// The unsigned byte written by a string, as Rust reads it: an optional `+`
/// followed by at least one decimal digit, with a value of at most 255.
pub open spec fn parse_u8(s: Seq<char>) -> Option<u8> {
    let body = unsigned_body(s);
    if body.len() > 0 && all_digits(body) && digits_value(body) <= 255 {
        Some(digits_value(body) as u8)
    } else {
        None
    }
}

/// The pieces of `s` between the occurrences of `sep` (empty pieces included),
/// as `str::split` gives them.
pub open spec fn split_on(s: Seq<char>, sep: char) -> Seq<Seq<char>>
    decreases s.len(),
{
    if s.len() == 0 {
        seq![Seq::<char>::empty()]
    } else {
        let rest = split_on(s.drop_last(), sep);
        if s.last() == sep {
            rest.push(Seq::<char>::empty())
        } else {
            rest.update(rest.len() - 1, rest.last().push(s.last()))
        }
    }
}

/// The pieces of a fret pattern: the space-separated parts if it contains a
/// space, otherwise its single characters.
pub open spec fn pattern_pieces(s: Seq<char>) -> Seq<Seq<char>> {
    if s.contains(' ') {
        split_on(s, ' ')
    } else {
        s.map_values(|c: char| seq![c])
    }
}

/// The frets written by a fret pattern such as "2220" or "7 8 9 10": exactly
/// four pieces, each of which reads as an unsigned byte.
pub open spec fn parse_fret_pattern(s: Seq<char>) -> Option<Seq<FretID>> {
    let pieces = pattern_pieces(s);
    if pieces.len() == STRING_COUNT && (forall|i: int|
        0 <= i < pieces.len() ==> parse_u8(#[trigger] pieces[i]) is Some) {
        Some(pieces.map_values(|p: Seq<char>| parse_u8(p).unwrap()))
    } else {
        None
    }
}

proof fn lemma_split_len(s: Seq<char>, sep: char)
    ensures
        split_on(s, sep).len() >= 1,
    decreases s.len(),
{
    if s.len() > 0 {
        lemma_split_len(s.drop_last(), sep);
    }
}

/// A pattern of frets to press down for playing a chord.
/// Each index corresponds to a ukulele string.
#[derive(Debug, Copy, Clone)]
pub struct FretPattern {
    frets: [FretID; STRING_COUNT],
}

impl View for FretPattern {
    type V = Seq<FretID>;

    closed spec fn view(&self) -> Seq<FretID> {
        self.frets@
    }
}

impl FretPattern {
    /// A fret pattern has one fret per string.
    pub proof fn lemma_len(&self)
        ensures
            self@.len() == STRING_COUNT,
    {
    }

    /// The frets of the pattern, from the first to the last string.
    pub fn iter(&self) -> (v: Vec<FretID>)
        ensures
            v@ == self@,
            v@.len() == STRING_COUNT,
    {
        let v = vec![self.frets[0], self.frets[1], self.frets[2], self.frets[3]];
        assert(v@ =~= self@);
        v
    }

    /// The strings played with this pattern in a tuning: each string's root,
    /// fret and the note sounding there (spelled sharp).
    pub open spec fn strings_in(self, tuning: Tuning) -> Seq<UkeString> {
        Seq::new(
            STRING_COUNT as nat,
            |i: int| (tuning.root_seq()[i], self@[i], tuning.root_seq()[i].up(self@[i] as nat)),
        )
    }

    /// The fret pressed on string `i`.
    pub fn index(&self, i: usize) -> (f: FretID)
        requires
            i < STRING_COUNT,
        ensures
            f == self@[i as int],
    {
        self.frets[i]
    }

    /// The lowest fret at which a string is pressed down (open strings do not count).
    pub fn get_min_fret(&self) -> (f: FretID)
        requires
            exists|i: int| 0 <= i < STRING_COUNT && self@[i] > 0,
        ensures
            f == pressed_min(pressed_min(self@[0], self@[1]), pressed_min(self@[2], self@[3])),
            f > 0,
    {
        let mut m: FretID = 0;
        let mut i: usize = 0;
        while i < STRING_COUNT
            invariant
                i <= STRING_COUNT,
                self@.len() == STRING_COUNT,
                m == (if i == 0 {
                    0
                } else if i == 1 {
                    self@[0]
                } else if i == 2 {
                    pressed_min(self@[0], self@[1])
                } else if i == 3 {
                    pressed_min(pressed_min(self@[0], self@[1]), self@[2])
                } else {
                    pressed_min(pressed_min(pressed_min(self@[0], self@[1]), self@[2]), self@[3])
                }),
            decreases STRING_COUNT - i,
        {
            let f = self.frets[i];
            if f > 0 && (m == 0 || f < m) {
                m = f;
            }
            i = i + 1;
        }
        m
    }

    /// The highest fret of the pattern.
    pub fn get_max_fret(&self) -> (f: FretID)
        ensures
            f == fret_max(fret_max(self@[0], self@[1]), fret_max(self@[2], self@[3])),
    {
        let a = if self.frets[0] >= self.frets[1] { self.frets[0] } else { self.frets[1] };
        let b = if self.frets[2] >= self.frets[3] { self.frets[2] } else { self.frets[3] };
        if a >= b {
            a
        } else {
            b
        }
    }

    /// The pattern moved `n` frets up the fretboard.
    pub fn add(self, n: Semitones) -> (p: FretPattern)
        requires
            forall|i: int| 0 <= i < STRING_COUNT ==> #[trigger] self@[i] + n <= u8::MAX,
        ensures
            forall|i: int| 0 <= i < STRING_COUNT ==> #[trigger] p@[i] == self@[i] + n,
    {
        let mut frets = self.frets;
        let mut i: usize = 0;
        while i < STRING_COUNT
            invariant
                i <= STRING_COUNT,
                self@.len() == STRING_COUNT,
                frets@.len() == STRING_COUNT,
                forall|k: int| 0 <= k < STRING_COUNT ==> #[trigger] self@[k] + n <= u8::MAX,
                forall|k: int| 0 <= k < i ==> #[trigger] frets@[k] == self@[k] + n,
                forall|k: int| i <= k < STRING_COUNT ==> #[trigger] frets@[k] == self@[k],
            decreases STRING_COUNT - i,
        {
            frets[i] = frets[i] + n;
            i = i + 1;
        }
        FretPattern { frets }
    }

    /// The pitch classes sounding on the strings in a tuning.
    pub fn get_pitch_classes(&self, tuning: Tuning) -> (v: Vec<PitchClass>)
        requires
            frets_fit(self@, tuning),
        ensures
            v@.len() == STRING_COUNT,
            forall|i: int|
                0 <= i < STRING_COUNT ==> #[trigger] v@[i] == PitchClass::of(
                    tuning.root_seq()[i].pitch_class.value() + self@[i],
                ),
    {
        let roots = tuning.roots();
        proof {
            crate::note::lemma_tuning_roots_small(tuning);
        }
        let mut v: Vec<PitchClass> = Vec::new();
        let mut i: usize = 0;
        while i < STRING_COUNT
            invariant
                i <= STRING_COUNT,
                self@.len() == STRING_COUNT,
                roots@ == tuning.root_seq(),
                frets_fit(self@, tuning),
                forall|k: int| 0 <= k < STRING_COUNT ==> (#[trigger] roots@[k]).pitch_class.value() < 12,
                v@.len() == i,
                forall|k: int|
                    0 <= k < i ==> #[trigger] v@[k] == PitchClass::of(
                        tuning.root_seq()[k].pitch_class.value() + self@[k],
                    ),
            decreases STRING_COUNT - i,
        {
            v.push(roots[i].pitch_class.add_semitones(self.frets[i]));
            i = i + 1;
        }
        v
    }

    /// The chords that the pattern plays in a tuning.
    pub fn get_chords(&self, tuning: Tuning) -> (v: Vec<Chord>)
        requires
            frets_fit(self@, tuning),
        ensures
            v@.len() == voicing_of(self.strings_in(tuning)).chord_seq().len(),
            forall|i: int|
                0 <= i < v@.len() ==> ((#[trigger] v@[i]).root, v@[i].chord_type) == voicing_of(
                    self.strings_in(tuning),
                ).chord_seq()[i],
    {
        let voicing = Voicing::new(*self, tuning);
        proof {
            lemma_voicing_of(self.strings_in(tuning));
            crate::voicing::lemma_voicing_len(voicing);
            assert(voicing@ =~= self.strings_in(tuning));
            lemma_view_eq(voicing, voicing_of(self.strings_in(tuning)));
        }
        voicing.get_chords()
    }

    /// A fret pattern from the frets of the four strings.
    pub fn from_frets(frets: [FretID; STRING_COUNT]) -> (p: FretPattern)
        ensures
            p@ == frets@,
    {
        FretPattern { frets }
    }

    /// Parse a fret pattern such as "2220" (one digit per string) or
    /// "7 8 9 10" (frets separated by spaces).
    pub fn from_str(s: &str) -> (r: Result<FretPattern, ParseFretPatternError>)
        ensures
            match r {
                Ok(p) => parse_fret_pattern(s@) == Some(p@),
                Err(_) => parse_fret_pattern(s@) is None,
            },
    {
        let cs = chars_of(s);
        let pieces = pieces_of(&cs);
        let ghost ps = pattern_pieces(cs@);
        if pieces.len() != STRING_COUNT {
            return Err(ParseFretPatternError);
        }
        let mut frets: Vec<FretID> = Vec::new();
        let mut i: usize = 0;
        while i < pieces.len()
            invariant
                i <= pieces.len(),
                cs@ == s@,
                ps == pattern_pieces(cs@),
                pieces.len() == STRING_COUNT,
                pieces@.len() == ps.len(),
                forall|j: int| 0 <= j < ps.len() ==> (#[trigger] pieces@[j])@ == ps[j],
                frets@.len() == i,
                forall|j: int| 0 <= j < i ==> parse_u8(#[trigger] ps[j]) == Some(frets@[j]),
            decreases pieces.len() - i,
        {
            match parse_u8_chars(&pieces[i]) {
                Some(f) => frets.push(f),
                None => {
                    assert(parse_u8(ps[i as int]) is None);
                    return Err(ParseFretPatternError);
                },
            }
            i = i + 1;
        }
        let arr: [FretID; STRING_COUNT] = [frets[0], frets[1], frets[2], frets[3]];
        let p = FretPattern { frets: arr };
        assert(ps.map_values(|q: Seq<char>| parse_u8(q).unwrap()) =~= p@);
        Ok(p)
    }
}

/// Split a fret pattern into its pieces.
fn pieces_of(cs: &Vec<char>) -> (v: Vec<Vec<char>>)
    ensures
        v@.len() == pattern_pieces(cs@).len(),
        forall|j: int| 0 <= j < v@.len() ==> (#[trigger] v@[j])@ == pattern_pieces(cs@)[j],
{
    let mut has_space = false;
    let mut k: usize = 0;
    while k < cs.len()
        invariant
            k <= cs.len(),
            has_space == cs@.take(k as int).contains(' '),
        decreases cs.len() - k,
    {
        proof {
            let t1 = cs@.take(k + 1);
            assert(t1 =~= cs@.take(k as int).push(cs@[k as int]));
            if cs@.take(k as int).contains(' ') {
                let j = choose|j: int| 0 <= j < k && cs@.take(k as int)[j] == ' ';
                assert(t1[j] == ' ');
            }
            if t1.contains(' ') {
                let j = choose|j: int| 0 <= j < t1.len() && t1[j] == ' ';
                if j < k {
                    assert(cs@.take(k as int)[j] == ' ');
                }
            }
            if cs@[k as int] == ' ' {
                assert(t1[k as int] == ' ');
            }
        }
        if cs[k] == ' ' {
            has_space = true;
        }
        k = k + 1;
    }
    assert(cs@.take(cs.len() as int) =~= cs@);
    let mut v: Vec<Vec<char>> = Vec::new();
    if has_space {
        let mut cur: Vec<char> = Vec::new();
        let mut i: usize = 0;
        while i < cs.len()
            invariant
                i <= cs.len(),
                v@.len() + 1 == split_on(cs@.take(i as int), ' ').len(),
                forall|j: int| 0 <= j < v@.len() ==> (#[trigger] v@[j])@ == split_on(cs@.take(i as int), ' ')[j],
                cur@ == split_on(cs@.take(i as int), ' ').last(),
            decreases cs.len() - i,
        {
            proof {
                assert(cs@.take(i + 1).drop_last() =~= cs@.take(i as int));
                lemma_split_len(cs@.take(i as int), ' ');
            }
            let c = cs[i];
            if c == ' ' {
                v.push(cur);
                cur = Vec::new();
            } else {
                cur.push(c);
            }
            i = i + 1;
        }
        v.push(cur);
        assert(cs@.take(cs.len() as int) =~= cs@);
    } else {
        let mut i: usize = 0;
        while i < cs.len()
            invariant
                i <= cs.len(),
                v@.len() == i,
                forall|j: int| 0 <= j < i ==> (#[trigger] v@[j])@ == seq![cs@[j]],
            decreases cs.len() - i,
        {
            let mut one: Vec<char> = Vec::new();
            one.push(cs[i]);
            v.push(one);
            i = i + 1;
        }
    }
    v
}

/// Read an unsigned byte from decimal digits, with an optional leading `+`.
pub fn parse_u8_chars(cs: &Vec<char>) -> (r: Option<u8>)
    ensures
        r == parse_u8(cs@),
{
    let start: usize = if cs.len() > 0 && cs[0] == '+' {
        1
    } else {
        0
    };
    let ghost body = unsigned_body(cs@);
    assert(body =~= cs@.skip(start as int));
    if start >= cs.len() {
        return None;
    }
    let mut value: u32 = 0;
    let mut i: usize = start;
    while i < cs.len()
        invariant
            start <= i <= cs.len(),
            body == cs@.skip(start as int),
            body == unsigned_body(cs@),
            forall|j: int| start <= j < i ==> is_digit(#[trigger] cs@[j]),
            value == digits_value(cs@.subrange(start as int, i as int)),
            value <= 255,
        decreases cs.len() - i,
    {
        let c = cs[i];
        if c < '0' || c > '9' {
            assert(body[i - start] == c);
            assert(!is_digit(body[i - start]));
            assert(!all_digits(body));
            return None;
        }
        let d: u32 = (c as u32) - ('0' as u32);
        assert(cs@.subrange(start as int, i + 1).drop_last() =~= cs@.subrange(start as int, i as int));
        value = value * 10 + d;
        if value > 255 {
            proof {
                let sub = cs@.subrange(start as int, i + 1);
                assert(sub.last() == c);
                assert(digit_value(c) == d);
                assert(value == digits_value(sub));
                lemma_digits_prefix_bound(body, (i + 1 - start) as int);
                assert(body.subrange(0, (i + 1 - start) as int) =~= sub);
                assert(digits_value(body) > 255);
            }
            return None;
        }
        i = i + 1;
    }
    assert(cs@.subrange(start as int, cs.len() as int) =~= body);
    Some(value as u8)
}

/// The number of a prefix of digits is at most the number of all digits.
proof fn lemma_digits_prefix_bound(s: Seq<char>, k: int)
    requires
        0 <= k <= s.len(),
    ensures
        digits_value(s.subrange(0, k)) <= digits_value(s),
    decreases s.len(),
{
    if k < s.len() {
        assert(s.drop_last() =~= s.subrange(0, s.len() - 1));
        lemma_digits_prefix_bound(s.drop_last(), k);
        assert(s.drop_last().subrange(0, k) =~= s.subrange(0, k));
        let x = digits_value(s.drop_last());
        assert(x * 10 >= x) by (nonlinear_arith);
    } else {
        assert(s.subrange(0, k) =~= s);
    }
}

} // verus!
