//! Chord charts: a voicing drawn in ASCII art.

use vstd::prelude::*;

use crate::note::Note;
use crate::text::push_char;
use crate::voicing::{lemma_voicing_len, Voicing};
use crate::{FretID, Semitones, UkeString, MIN_CHART_WIDTH, STRING_COUNT};

verus! {

/// `n` spaces.
pub open spec fn spaces(n: nat) -> Seq<char> {
    Seq::new(n, |i: int| ' ')
}

/// `s` followed by spaces up to a length of `w`.
pub open spec fn pad_right(s: Seq<char>, w: nat) -> Seq<char> {
    if s.len() < w {
        s + spaces((w - s.len()) as nat)
    } else {
        s
    }
}

/// `s` preceded by spaces up to a length of `w`.
pub open spec fn pad_left(s: Seq<char>, w: nat) -> Seq<char> {
    if s.len() < w {
        spaces((w - s.len()) as nat) + s
    } else {
        s
    }
}

/// The character of a decimal digit.
pub open spec fn digit_char(d: nat) -> char {
    if d == 0 {
        '0'
    } else if d == 1 {
        '1'
    } else if d == 2 {
        '2'
    } else if d == 3 {
        '3'
    } else if d == 4 {
        '4'
    } else if d == 5 {
        '5'
    } else if d == 6 {
        '6'
    } else if d == 7 {
        '7'
    } else if d == 8 {
        '8'
    } else {
        '9'
    }
}

/// The decimal digits of a number.
pub open spec fn decimal(n: nat) -> Seq<char>
    decreases n,
{
    if n < 10 {
        seq![digit_char(n)]
    } else {
        decimal(n / 10).push(digit_char(n % 10))
    }
}

/// The frets `base` to `base + count - 1` of a string on which `fret` is
/// pressed with finger `finger`: each fret is drawn as "-x-|", where x is the
/// finger's number on the pressed fret and "-" elsewhere.
pub open spec fn fret_cells(fret: u8, base: int, count: nat, finger: u8) -> Seq<char>
    decreases count,
{
    if count == 0 {
        Seq::empty()
    } else {
        let i = base + count - 1;
        let mark = if fret == i {
            decimal(finger as nat)
        } else {
            seq!['-']
        };
        fret_cells(fret, base, (count - 1) as nat, finger) + seq!['-'] + mark + seq!['-', '|']
    }
}

/// The line of the chart that shows one string: its root note (padded to
/// `root_width`), "o" for an open string, the nut "||" (or "-|" if the chart
/// does not start at the first fret), the frets shown, and the note played.
pub open spec fn chart_line(u: UkeString, base: int, root_width: nat, finger: u8, width: nat) -> Seq<char> {
    line_start(u, base, root_width) + fret_cells(u.1, base, width, finger) + line_end(u)
}

/// The start of a string's line: root note, open string mark and nut.
pub open spec fn line_start(u: UkeString, base: int, root_width: nat) -> Seq<char> {
    pad_right(u.0.name(), root_width) + seq![
        ' ',
        if u.1 == 0 {
            'o'
        } else {
            ' '
        },
        if base == 1 {
            '|'
        } else {
            '-'
        },
        '|',
    ]
}

/// The end of a string's line: the note played.
pub open spec fn line_end(u: UkeString) -> Seq<char> {
    seq!['-', ' '] + u.2.name() + seq!['\n']
}

/// A chord chart: a voicing drawn over a number of frets.
pub struct ChordChart {
    voicing: Voicing,
    /// Number of frets to use to display the chord voicing
    width: Semitones,
}

impl ChordChart {
    /// The voicing shown.
    pub closed spec fn shown(self) -> Voicing {
        self.voicing
    }

    /// The number of frets shown.
    pub closed spec fn frets_shown(self) -> u8 {
        self.width
    }

    /// The first fret shown: the first fret if the highest fret fits on the
    /// chart, otherwise the lowest pressed fret.
    pub open spec fn base_fret(self) -> u8 {
        if self.shown().max_fret() <= self.frets_shown() {
            1
        } else {
            self.shown().min_pressed()
        }
    }

    /// The width needed for the names of the strings' root notes.
    pub open spec fn root_width(self) -> nat {
        let r = self.shown().root_seq();
        let a = if r[0].name().len() >= r[1].name().len() { r[0].name().len() } else { r[1].name().len() };
        let b = if r[2].name().len() >= r[3].name().len() { r[2].name().len() } else { r[3].name().len() };
        if a >= b {
            a
        } else {
            b
        }
    }

    /// The text of the chart: one line per string, from the last string to
    /// the first one, followed by the number of the first fret shown (aligned
    /// below the first fret) if the chart does not start at the nut.
    pub open spec fn text(self) -> Seq<char> {
        let v = self.shown();
        let base = self.base_fret() as int;
        let rw = self.root_width();
        let fingers = v.finger_seq();
        let w = self.frets_shown() as nat;
        chart_line(v@[3], base, rw, fingers[3], w) + chart_line(v@[2], base, rw, fingers[2], w)
            + chart_line(v@[1], base, rw, fingers[1], w) + chart_line(v@[0], base, rw, fingers[0], w)
            + if base > 1 {
            pad_left(decimal(base as nat), rw + 6) + seq!['\n']
        } else {
            Seq::empty()
        }
    }

    /// A chart of the voicing over `width` frets (at least four).
    pub fn new(voicing: Voicing, width: Semitones) -> (c: ChordChart)
        requires
            voicing.span() <= if width >= MIN_CHART_WIDTH {
                width
            } else {
                MIN_CHART_WIDTH
            },
        ensures
            c.shown() == voicing,
            c.frets_shown() == if width >= MIN_CHART_WIDTH {
                width
            } else {
                MIN_CHART_WIDTH
            },
    {
        let width = if width >= MIN_CHART_WIDTH {
            width
        } else {
            MIN_CHART_WIDTH
        };
        ChordChart { voicing, width }
    }

    /// Determine from which fret to show the fretboard: the first fret if the
    /// highest fret fits on the chart, otherwise the lowest pressed fret.
    pub fn get_base_fret(&self) -> (r: FretID)
        ensures
            r == self.base_fret(),
            self.shown().max_fret() <= self.frets_shown() ==> r == 1,
            self.shown().max_fret() > self.frets_shown() ==> r == self.shown().min_pressed(),
    {
        let max_fret = self.voicing.get_max_fret();
        if max_fret <= self.width {
            1
        } else {
            self.voicing.get_min_pressed_fret()
        }
    }

    /// The width of the space needed to print the names of the root notes.
    pub fn get_root_width(&self) -> (r: usize)
        requires
            forall|i: int| 0 <= i < STRING_COUNT ==> (#[trigger] self.shown().root_seq()[i]).valid(),
        ensures
            r == self.root_width(),
    {
        proof {
            lemma_voicing_len(self.voicing);
        }
        let roots = self.voicing.roots();
        assert(roots@[0].valid() && roots@[1].valid() && roots@[2].valid() && roots@[3].valid()) by {
            assert(self.shown().root_seq()[0].valid());
            assert(self.shown().root_seq()[1].valid());
            assert(self.shown().root_seq()[2].valid());
            assert(self.shown().root_seq()[3].valid());
        }
        let l0 = name_len(&roots[0]);
        let l1 = name_len(&roots[1]);
        let l2 = name_len(&roots[2]);
        let l3 = name_len(&roots[3]);
        let a = if l0 >= l1 {
            l0
        } else {
            l1
        };
        let b = if l2 >= l3 {
            l2
        } else {
            l3
        };
        if a >= b {
            a
        } else {
            b
        }
    }

    /// Format a line that represents a ukulele string in the chart.
    pub fn format_line(&self, uke_string: UkeString, base_fret: FretID, root_width: usize, finger: u8) -> (s: String)
        requires
            uke_string.0.valid(),
            uke_string.2.valid(),
            base_fret + self.frets_shown() <= u8::MAX,
        ensures
            s@ == chart_line(uke_string, base_fret as int, root_width as nat, finger, self.frets_shown() as nat),
    {
        let (root, fret, note) = uke_string;
        let mut s = String::new();
        append_padded(&mut s, &root, root_width);
        push_char(&mut s, ' ');
        if fret == 0 {
            push_char(&mut s, 'o');
        } else {
            push_char(&mut s, ' ');
        }
        if base_fret == 1 {
            push_char(&mut s, '|');
        } else {
            push_char(&mut s, '-');
        }
        push_char(&mut s, '|');
        assert(s@ =~= line_start(uke_string, base_fret as int, root_width as nat));
        let ghost a = s@;
        append_cells(&mut s, fret, base_fret, self.width, finger);
        let ghost b = s@;
        let mut e = String::new();
        push_char(&mut e, '-');
        push_char(&mut e, ' ');
        append_str(&mut e, note.to_str());
        push_char(&mut e, '\n');
        assert(e@ =~= line_end(uke_string));
        append_str(&mut s, e.as_str());
        s
    }

    /// The chart as text.
    #[verifier::rlimit(40)]
    #[verifier::spinoff_prover]
    pub fn to_string(&self) -> (s: String)
        requires
            forall|i: int| 0 <= i < STRING_COUNT ==> (#[trigger] self.shown().root_seq()[i]).valid(),
            forall|i: int| 0 <= i < STRING_COUNT ==> (#[trigger] self.shown().note_seq()[i]).valid(),
            self.shown().min_pressed() + 3 <= u8::MAX,
            self.shown().max_fret() < u8::MAX,
            self.base_fret() + self.frets_shown() <= u8::MAX,
        ensures
            s@ == self.text(),
    {
        proof {
            lemma_voicing_len(self.voicing);
        }
        let base_fret = self.get_base_fret();
        let root_width = self.get_root_width();
        let fingers = self.voicing.fingers_on_strings();
        let strings = self.voicing.uke_strings();
        assert(self.voicing.root_seq()[3] == strings@[3].0);
        assert(self.voicing.note_seq()[3] == strings@[3].2);
        assert(self.voicing.root_seq()[2] == strings@[2].0);
        assert(self.voicing.note_seq()[2] == strings@[2].2);
        assert(self.voicing.root_seq()[1] == strings@[1].0);
        assert(self.voicing.note_seq()[1] == strings@[1].2);
        assert(self.voicing.root_seq()[0] == strings@[0].0);
        assert(self.voicing.note_seq()[0] == strings@[0].2);
        let mut s = self.format_line(strings[3], base_fret, root_width, fingers[3]);
        let l2 = self.format_line(strings[2], base_fret, root_width, fingers[2]);
        append_str(&mut s, l2.as_str());
        let l1 = self.format_line(strings[1], base_fret, root_width, fingers[1]);
        append_str(&mut s, l1.as_str());
        let l0 = self.format_line(strings[0], base_fret, root_width, fingers[0]);
        append_str(&mut s, l0.as_str());
        if base_fret > 1 {
            let digits = decimal_string(base_fret);
            let w = root_width + 6;
            let dl = crate::text::chars_of(digits.as_str()).len();
            let mut k: usize = dl;
            let ghost start = s@;
            while k < w
                invariant
                    dl <= k,
                    dl == digits@.len(),
                    k <= w || k == dl,
                    s@ == start + spaces((k - dl) as nat),
                decreases w - k,
            {
                push_char(&mut s, ' ');
                k = k + 1;
                assert(s@ =~= start + spaces((k - dl) as nat));
            }
            append_str(&mut s, digits.as_str());
            push_char(&mut s, '\n');
            proof {
                assert(pad_left(decimal(base_fret as nat), (root_width + 6) as nat) =~= spaces((k - dl) as nat) + decimal(base_fret as nat));
            }
        }
        assert(s@ =~= self.text());
        s
    }
}

/// Appends a note's name, padded with spaces to `width` characters.
pub(crate) fn append_padded(s: &mut String, n: &Note, width: usize)
    requires
        n.valid(),
    ensures
        final(s)@ == old(s)@ + pad_right(n.name(), width as nat),
{
    append_str(s, n.to_str());
    let name_len = name_len(n);
    let mut k: usize = name_len;
    let ghost start = s@;
    while k < width
        invariant
            name_len <= k,
            k <= width || k == name_len,
            s@ == start + spaces((k - name_len) as nat),
        decreases width - k,
    {
        push_char(s, ' ');
        k = k + 1;
        assert(s@ =~= start + spaces((k - name_len) as nat));
    }
    assert(s@ =~= old(s)@ + pad_right(n.name(), width as nat));
}

/// Appends the frets `base` to `base + count - 1` of a string.
fn append_cells(s: &mut String, fret: u8, base: u8, count: u8, finger: u8)
    requires
        base + count <= u8::MAX,
    ensures
        final(s)@ == old(s)@ + fret_cells(fret, base as int, count as nat, finger),
{
    let ghost before_cells = s@;
    let mut i: u8 = base;
    while i < base + count
        invariant
            base <= i <= base + count,
            base + count <= u8::MAX,
            s@ == before_cells + fret_cells(fret, base as int, (i - base) as nat, finger),
        decreases base + count - i,
    {
        push_char(s, '-');
        if fret == i {
            append_decimal(s, finger);
        } else {
            push_char(s, '-');
        }
        push_char(s, '-');
        push_char(s, '|');
        i = i + 1;
        assert(s@ =~= before_cells + fret_cells(fret, base as int, (i - base) as nat, finger));
    }
}

/// Appends a string slice to a string.
pub(crate) fn append_str(s: &mut String, t: &str)
    ensures
        final(s)@ == old(s)@ + t@,
{
    vstd::string::StringExecFns::append(s, t);
}

/// The length of a note's name.
pub(crate) fn name_len(n: &Note) -> (r: usize)
    requires
        n.valid(),
    ensures
        r == n.name().len(),
{
    let cs = crate::text::chars_of(n.to_str());
    cs.len()
}

/// The digits of a number below 10 as a character.
fn digit_to_char(d: u8) -> (c: char)
    requires
        d < 10,
    ensures
        c == digit_char(d as nat),
{
    if d == 0 {
        '0'
    } else if d == 1 {
        '1'
    } else if d == 2 {
        '2'
    } else if d == 3 {
        '3'
    } else if d == 4 {
        '4'
    } else if d == 5 {
        '5'
    } else if d == 6 {
        '6'
    } else if d == 7 {
        '7'
    } else if d == 8 {
        '8'
    } else {
        '9'
    }
}

/// Appends the decimal digits of a number.
fn append_decimal(s: &mut String, n: u8)
    ensures
        final(s)@ == old(s)@ + decimal(n as nat),
{
    if n >= 100 {
        push_char(s, digit_to_char(n / 100));
        push_char(s, digit_to_char((n / 10) % 10));
        push_char(s, digit_to_char(n % 10));
        assert(decimal(n as nat) =~= seq![digit_char((n / 100) as nat), digit_char(((n / 10) % 10) as nat), digit_char((n % 10) as nat)]) by {
            assert(decimal((n / 100) as nat) == seq![digit_char((n / 100) as nat)]);
            assert(decimal((n / 10) as nat) == decimal((n / 100) as nat).push(digit_char(((n / 10) % 10) as nat)));
        }
    } else if n >= 10 {
        push_char(s, digit_to_char(n / 10));
        push_char(s, digit_to_char(n % 10));
        assert(decimal((n / 10) as nat) == seq![digit_char((n / 10) as nat)]);
        assert(decimal(n as nat) =~= seq![digit_char((n / 10) as nat), digit_char((n % 10) as nat)]);
    } else {
        push_char(s, digit_to_char(n));
        assert(decimal(n as nat) =~= seq![digit_char(n as nat)]);
    }
}

/// The decimal digits of a number as a string.
pub fn decimal_string(n: u8) -> (s: String)
    ensures
        s@ == decimal(n as nat),
{
    let mut s = String::new();
    append_decimal(&mut s, n);
    assert(s@ =~= decimal(n as nat));
    s
}


/// A chart starts at the nut (base fret 1) exactly when the highest fret of
/// its voicing is on one of the frets shown from the nut; otherwise it starts
/// at the lowest pressed fret. Either way, when the voicing spans no more
/// frets than are shown, every pressed fret is on the chart.
pub proof fn law_chart_base_fret(c: ChordChart)
    ensures
        c.shown().max_fret() <= c.frets_shown() ==> c.base_fret() == 1,
        c.shown().max_fret() > c.frets_shown() ==> c.base_fret() == c.shown().min_pressed(),
        c.shown().span() <= c.frets_shown() ==> forall|i: int|
            0 <= i < STRING_COUNT && c.shown().fret(i) != 0 ==> c.base_fret() <= #[trigger] c.shown().fret(i)
                < c.base_fret() + c.frets_shown(),
{
    let v = c.shown();
    crate::voicing::lemma_min_pressed_le_max(v);
    assert(v.fret(0) <= v.max_fret() && v.fret(1) <= v.max_fret() && v.fret(2) <= v.max_fret() && v.fret(3)
        <= v.max_fret());
    assert(v.fret(0) != 0 ==> v.min_pressed() <= v.fret(0));
    assert(v.fret(1) != 0 ==> v.min_pressed() <= v.fret(1));
    assert(v.fret(2) != 0 ==> v.min_pressed() <= v.fret(2));
    assert(v.fret(3) != 0 ==> v.min_pressed() <= v.fret(3));
}

} // verus!
