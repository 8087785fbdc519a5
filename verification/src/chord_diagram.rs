//! Chord diagrams: the strings of a chord drawn in ASCII art, with the
//! pressed frets marked.

use vstd::prelude::*;

use crate::chord::Chord;
use crate::chord_chart::{
    append_padded, append_str, decimal, decimal_string, line_end, line_start, name_len, pad_left,
    spaces,
};
use crate::note::Note;
use crate::text::push_char;
use crate::voicing::{fret_max, lemma_view_eq, lemma_voicing_of, pressed_min, voicing_of, Voicing};
use crate::{FretID, Semitones, UkeString, STRING_COUNT};

verus! {

/// The frets `base` to `base + count - 1` of a string on which `fret` is
/// pressed: each fret is drawn as "-o-|" if it is pressed and as "---|"
/// otherwise.
pub open spec fn diagram_cells(fret: u8, base: int, count: nat) -> Seq<char>
    decreases count,
{
    if count == 0 {
        Seq::empty()
    } else {
        let mark = if fret == base + count - 1 {
            'o'
        } else {
            '-'
        };
        diagram_cells(fret, base, (count - 1) as nat) + seq!['-', mark, '-', '|']
    }
}

/// The line of the diagram that shows one string: its root note (padded to
/// `root_width`), "o" for an open string, the nut "||" (or "-|" if the
/// diagram does not start at the first fret), the frets shown, and the note
/// played.
pub open spec fn diagram_line(u: UkeString, base: int, root_width: nat, width: nat) -> Seq<char> {
    line_start(u, base, root_width) + diagram_cells(u.1, base, width) + line_end(u)
}

/// A chord diagram: four strings, each with its root, the fret pressed and
/// the note played, drawn over `max_span` frets.
pub struct ChordDiagram {
    uke_strings: [UkeString; STRING_COUNT],
    max_span: Semitones,
}

impl ChordDiagram {
    /// The strings of the diagram.
    pub closed spec fn strings(self) -> Seq<UkeString> {
        self.uke_strings@
    }

    /// The number of frets shown.
    pub closed spec fn span_shown(self) -> Semitones {
        self.max_span
    }

    /// The fret pressed on string `i`.
    pub open spec fn fret(self, i: int) -> u8 {
        self.strings()[i].1
    }

    /// The lowest pressed fret, 0 if no string is pressed.
    pub open spec fn min_fret(self) -> u8 {
        pressed_min(pressed_min(self.fret(0), self.fret(1)), pressed_min(self.fret(2), self.fret(3)))
    }

    /// The highest fret.
    pub open spec fn max_fret(self) -> u8 {
        fret_max(fret_max(self.fret(0), self.fret(1)), fret_max(self.fret(2), self.fret(3)))
    }

    /// The first fret shown: the first fret if the highest fret fits on the
    /// diagram, otherwise the lowest pressed fret.
    pub open spec fn base_fret(self) -> u8 {
        if self.max_fret() <= self.span_shown() {
            1
        } else {
            self.min_fret()
        }
    }

    /// The width needed for the names of the strings' root notes.
    pub open spec fn root_width(self) -> nat {
        let r = self.strings();
        let a = if r[0].0.name().len() >= r[1].0.name().len() { r[0].0.name().len() } else { r[1].0.name().len() };
        let b = if r[2].0.name().len() >= r[3].0.name().len() { r[2].0.name().len() } else { r[3].0.name().len() };
        if a >= b {
            a
        } else {
            b
        }
    }

    /// The text of the diagram: one line per string, from the last string to
    /// the first one, followed by the number of the first fret shown (aligned
    /// below the first fret) if the diagram does not start at the nut.
    pub open spec fn text(self) -> Seq<char> {
        let s = self.strings();
        let base = self.base_fret() as int;
        let rw = self.root_width();
        let w = self.span_shown() as nat;
        diagram_line(s[3], base, rw, w) + diagram_line(s[2], base, rw, w) + diagram_line(s[1], base, rw, w)
            + diagram_line(s[0], base, rw, w) + if base > 1 {
            pad_left(decimal(base as nat), rw + 6) + seq!['\n']
        } else {
            Seq::empty()
        }
    }

    /// A diagram of the given strings over `max_span` frets.
    pub fn new(uke_strings: [UkeString; STRING_COUNT], max_span: Semitones) -> (d: ChordDiagram)
        ensures
            d.strings() == uke_strings@,
            d.span_shown() == max_span,
    {
        ChordDiagram { uke_strings, max_span }
    }

    /// The strings of the diagram.
    pub fn uke_strings(&self) -> (v: Vec<UkeString>)
        ensures
            v@ == self.strings(),
    {
        let v = vec![self.uke_strings[0], self.uke_strings[1], self.uke_strings[2], self.uke_strings[3]];
        assert(v@ =~= self.strings());
        v
    }

    /// The root notes of the strings.
    pub fn roots(&self) -> (v: Vec<Note>)
        ensures
            v@ == self.strings().map_values(|u: UkeString| u.0),
    {
        let v = vec![self.uke_strings[0].0, self.uke_strings[1].0, self.uke_strings[2].0, self.uke_strings[3].0];
        assert(v@ =~= self.strings().map_values(|u: UkeString| u.0));
        v
    }

    /// The frets of the strings.
    pub fn frets(&self) -> (v: Vec<FretID>)
        ensures
            v@ == self.strings().map_values(|u: UkeString| u.1),
    {
        let v = vec![self.uke_strings[0].1, self.uke_strings[1].1, self.uke_strings[2].1, self.uke_strings[3].1];
        assert(v@ =~= self.strings().map_values(|u: UkeString| u.1));
        v
    }

    /// The notes played on the strings.
    pub fn notes(&self) -> (v: Vec<Note>)
        ensures
            v@ == self.strings().map_values(|u: UkeString| u.2),
    {
        let v = vec![self.uke_strings[0].2, self.uke_strings[1].2, self.uke_strings[2].2, self.uke_strings[3].2];
        assert(v@ =~= self.strings().map_values(|u: UkeString| u.2));
        v
    }

    /// Whether the diagram is a valid depiction of how to play `chord`: its
    /// notes are exactly those of the chord (compared by pitch class).
    pub fn depicts(&self, chord: &Chord) -> (r: bool)
        ensures
            r == voicing_of(self.strings()).spells(*chord),
    {
        let voicing = Voicing::from_uke_strings(&self.uke_strings);
        proof {
            lemma_voicing_of(self.strings());
            lemma_view_eq(voicing, voicing_of(self.strings()));
        }
        voicing.spells_out(chord)
    }

    /// The lowest fret at which a string is pressed down, 0 if none is.
    pub fn get_min_fret(&self) -> (f: FretID)
        ensures
            f == self.min_fret(),
    {
        let mut m: FretID = 0;
        let mut i: usize = 0;
        while i < STRING_COUNT
            invariant
                i <= STRING_COUNT,
                self.strings().len() == STRING_COUNT,
                m == (if i == 0 {
                    0
                } else if i == 1 {
                    self.fret(0)
                } else if i == 2 {
                    pressed_min(self.fret(0), self.fret(1))
                } else if i == 3 {
                    pressed_min(pressed_min(self.fret(0), self.fret(1)), self.fret(2))
                } else {
                    pressed_min(pressed_min(pressed_min(self.fret(0), self.fret(1)), self.fret(2)), self.fret(3))
                }),
            decreases STRING_COUNT - i,
        {
            let f = self.uke_strings[i].1;
            if f > 0 && (m == 0 || f < m) {
                m = f;
            }
            i = i + 1;
        }
        m
    }

    /// The highest fret.
    pub fn get_max_fret(&self) -> (f: FretID)
        ensures
            f == self.max_fret(),
    {
        let f0 = self.uke_strings[0].1;
        let f1 = self.uke_strings[1].1;
        let f2 = self.uke_strings[2].1;
        let f3 = self.uke_strings[3].1;
        let a = if f0 >= f1 { f0 } else { f1 };
        let b = if f2 >= f3 { f2 } else { f3 };
        if a >= b {
            a
        } else {
            b
        }
    }

    /// The number of frets between the lowest pressed fret and the highest fret.
    pub fn get_span(&self) -> (s: FretID)
        ensures
            s == self.max_fret() - self.min_fret(),
    {
        self.get_max_fret() - self.get_min_fret()
    }

    /// Determine from which fret to show the fretboard: the first fret if the
    /// highest fret fits on the diagram, otherwise the lowest pressed fret.
    pub fn get_base_fret(&self) -> (f: FretID)
        ensures
            f == self.base_fret(),
            self.max_fret() <= self.span_shown() ==> f == 1,
            self.max_fret() > self.span_shown() ==> f == self.min_fret(),
    {
        let max_fret = self.get_max_fret();
        if max_fret <= self.max_span {
            1
        } else {
            self.get_min_fret()
        }
    }

    /// The width of the space needed to print the names of the root notes.
    pub fn get_root_width(&self) -> (r: usize)
        requires
            forall|i: int| 0 <= i < STRING_COUNT ==> (#[trigger] self.strings()[i]).0.valid(),
        ensures
            r == self.root_width(),
    {
        assert(self.strings()[0].0.valid() && self.strings()[1].0.valid());
        assert(self.strings()[2].0.valid() && self.strings()[3].0.valid());
        let l0 = name_len(&self.uke_strings[0].0);
        let l1 = name_len(&self.uke_strings[1].0);
        let l2 = name_len(&self.uke_strings[2].0);
        let l3 = name_len(&self.uke_strings[3].0);
        let a = if l0 >= l1 { l0 } else { l1 };
        let b = if l2 >= l3 { l2 } else { l3 };
        if a >= b {
            a
        } else {
            b
        }
    }

    /// Format a line that represents a ukulele string in the diagram.
    pub fn format_line(&self, uke_string: UkeString, base_fret: FretID, root_width: usize) -> (s: String)
        requires
            uke_string.0.valid(),
            uke_string.2.valid(),
            base_fret + self.span_shown() <= u8::MAX,
        ensures
            s@ == diagram_line(uke_string, base_fret as int, root_width as nat, self.span_shown() as nat),
    {
        let (root, fret, note) = uke_string;
        let mut s = String::new();
        append_padded(&mut s, &root, root_width);
        push_char(&mut s, ' ');
        if fret == 0 {
            push_char(&mut s, 'o');
        } else {
            push_char(&mut s, ' ');
        }
        if base_fret == 1 {
            push_char(&mut s, '|');
        } else {
            push_char(&mut s, '-');
        }
        push_char(&mut s, '|');
        assert(s@ =~= line_start(uke_string, base_fret as int, root_width as nat));
        let ghost before_cells = s@;
        let mut i: u8 = base_fret;
        while i < base_fret + self.max_span
            invariant
                base_fret <= i <= base_fret + self.max_span,
                base_fret + self.max_span <= u8::MAX,
                s@ == before_cells + diagram_cells(fret, base_fret as int, (i - base_fret) as nat),
            decreases base_fret + self.max_span - i,
        {
            push_char(&mut s, '-');
            if fret == i {
                push_char(&mut s, 'o');
            } else {
                push_char(&mut s, '-');
            }
            push_char(&mut s, '-');
            push_char(&mut s, '|');
            i = i + 1;
            assert(s@ =~= before_cells + diagram_cells(fret, base_fret as int, (i - base_fret) as nat));
        }
        let mut e = String::new();
        push_char(&mut e, '-');
        push_char(&mut e, ' ');
        append_str(&mut e, note.to_str());
        push_char(&mut e, '\n');
        assert(e@ =~= line_end(uke_string));
        append_str(&mut s, e.as_str());
        s
    }

    /// The diagram as text.
    #[verifier::rlimit(40)]
    #[verifier::spinoff_prover]
    pub fn to_string(&self) -> (s: String)
        requires
            forall|i: int| 0 <= i < STRING_COUNT ==> (#[trigger] self.strings()[i]).0.valid(),
            forall|i: int| 0 <= i < STRING_COUNT ==> (#[trigger] self.strings()[i]).2.valid(),
            self.base_fret() + self.span_shown() <= u8::MAX,
        ensures
            s@ == self.text(),
    {
        let base_fret = self.get_base_fret();
        let root_width = self.get_root_width();
        assert(self.strings()[3].0.valid() && self.strings()[3].2.valid());
        assert(self.strings()[2].0.valid() && self.strings()[2].2.valid());
        assert(self.strings()[1].0.valid() && self.strings()[1].2.valid());
        assert(self.strings()[0].0.valid() && self.strings()[0].2.valid());
        let mut s = self.format_line(self.uke_strings[3], base_fret, root_width);
        let l2 = self.format_line(self.uke_strings[2], base_fret, root_width);
        append_str(&mut s, l2.as_str());
        let l1 = self.format_line(self.uke_strings[1], base_fret, root_width);
        append_str(&mut s, l1.as_str());
        let l0 = self.format_line(self.uke_strings[0], base_fret, root_width);
        append_str(&mut s, l0.as_str());
        if base_fret > 1 {
            let digits = decimal_string(base_fret);
            let w = root_width + 6;
            let dl = crate::text::chars_of(digits.as_str()).len();
            let mut k: usize = dl;
            let ghost start = s@;
            while k < w
                invariant
                    dl <= k,
                    dl == digits@.len(),
                    k <= w || k == dl,
                    s@ == start + spaces((k - dl) as nat),
                decreases w - k,
            {
                push_char(&mut s, ' ');
                k = k + 1;
                assert(s@ =~= start + spaces((k - dl) as nat));
            }
            append_str(&mut s, digits.as_str());
            push_char(&mut s, '\n');
            proof {
                assert(pad_left(decimal(base_fret as nat), (root_width + 6) as nat) =~= spaces((k - dl) as nat)
                    + decimal(base_fret as nat));
            }
        }
        assert(s@ =~= self.text());
        s
    }
}


/// A diagram starts at the nut (base fret 1) exactly when its highest fret
/// is on one of the frets shown from the nut; otherwise it starts at the
/// lowest pressed fret, and then every pressed fret is shown when the
/// frets span no more than are shown.
pub proof fn law_diagram_base_fret(d: ChordDiagram)
    ensures
        d.max_fret() <= d.span_shown() ==> d.base_fret() == 1,
        d.max_fret() > d.span_shown() ==> d.base_fret() == d.min_fret(),
        d.max_fret() - d.min_fret() < d.span_shown() ==> forall|i: int|
            0 <= i < STRING_COUNT && d.fret(i) != 0 ==> d.base_fret() <= #[trigger] d.fret(i) < d.base_fret()
                + d.span_shown(),
{
    assert(d.fret(0) <= d.max_fret() && d.fret(1) <= d.max_fret() && d.fret(2) <= d.max_fret() && d.fret(3)
        <= d.max_fret());
    assert(d.fret(0) != 0 ==> d.min_fret() <= d.fret(0));
    assert(d.fret(1) != 0 ==> d.min_fret() <= d.fret(1));
    assert(d.fret(2) != 0 ==> d.min_fret() <= d.fret(2));
    assert(d.fret(3) != 0 ==> d.min_fret() <= d.fret(3));
}

} // verus!
