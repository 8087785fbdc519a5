//! Fingerings: where the four fingers of the left hand are placed.

use vstd::prelude::*;

use crate::voicing::{fret_diff, Voicing};
use crate::{FingerPosition, FINGER_COUNT, STRING_COUNT};

verus! {

/// The positions of the fingers for a voicing: finger `n` (1 to 4) is placed
/// on the first string (counting from 1) that it presses and on that string's
/// fret; for a barre only the position of the upmost string is kept.
/// Fingers that are not used stay at (0, 0); finger numbers above 4 are
/// ignored.
pub open spec fn positions_of(frets: Seq<u8>, fingers: Seq<u8>, k: nat) -> Seq<FingerPosition>
    decreases k,
{
    if k == 0 {
        seq![(0u8, 0u8), (0u8, 0u8), (0u8, 0u8), (0u8, 0u8)]
    } else {
        let prev = positions_of(frets, fingers, (k - 1) as nat);
        let finger = fingers[k - 1];
        if 0 < finger <= FINGER_COUNT && prev[finger - 1] == (0u8, 0u8) {
            prev.update(finger - 1, (k as u8, frets[k - 1]))
        } else {
            prev
        }
    }
}

/// The effort of moving one finger from one position to another: adding,
/// removing or sliding a finger along a string counts one, moving it to
/// another string counts the strings and frets crossed.
pub open spec fn position_dist(a: FingerPosition, b: FingerPosition) -> int {
    let add = a.0 == 0 && b.0 != 0;
    let remove = a.0 != 0 && b.0 == 0;
    let slide = a.0 == b.0 && a.1 != b.1;
    if add || remove || slide {
        1
    } else {
        fret_diff(a.0, b.0) + fret_diff(a.1, b.1)
    }
}

/// The effort of moving all four fingers.
pub open spec fn positions_dist(a: Seq<FingerPosition>, b: Seq<FingerPosition>) -> int {
    position_dist(a[0], b[0]) + position_dist(a[1], b[1]) + position_dist(a[2], b[2])
        + position_dist(a[3], b[3])
}

/// The positions of the four fingers when playing a voicing.
#[derive(Debug, Copy, Clone, PartialEq, Eq)]
pub struct Fingering {
    finger_positions: [FingerPosition; FINGER_COUNT],
}

impl View for Fingering {
    type V = Seq<FingerPosition>;

    closed spec fn view(&self) -> Seq<FingerPosition> {
        self.finger_positions@
    }
}

/// A fingering has one position per finger.
pub broadcast proof fn lemma_fingering_len(f: Fingering)
    ensures
        #[trigger] f@.len() == FINGER_COUNT,
{
}

impl Fingering {
    /// A fingering from the positions of the four fingers.
    pub fn from_positions(finger_positions: [FingerPosition; FINGER_COUNT]) -> (f: Fingering)
        ensures
            f@ == finger_positions@,
    {
        Fingering { finger_positions }
    }

    /// The fingering used to play a voicing.
    pub fn from_voicing(voicing: Voicing) -> (f: Fingering)
        requires
            voicing.min_pressed() + 3 <= u8::MAX,
            voicing.max_fret() < u8::MAX,
        ensures
            f@ == positions_of(voicing.fret_seq(), voicing.finger_seq(), STRING_COUNT as nat),
    {
        let fingers = voicing.fingers_on_strings();
        let frets = voicing.frets();
        let mut positions: Vec<FingerPosition> = vec![(0, 0), (0, 0), (0, 0), (0, 0)];
        assert(positions@ =~= positions_of(frets@, fingers@, 0));
        let mut i: usize = 0;
        while i < STRING_COUNT
            invariant
                i <= STRING_COUNT,
                frets@ == voicing.fret_seq(),
                frets@.len() == STRING_COUNT,
                fingers@ == voicing.finger_seq(),
                forall|j: int| 0 <= j < STRING_COUNT ==> fingers@[j] <= FINGER_COUNT,
                positions@ == positions_of(frets@, fingers@, i as nat),
                positions@.len() == FINGER_COUNT,
            decreases STRING_COUNT - i,
        {
            let finger = fingers[i];
            if finger > 0 {
                let index = (finger - 1) as usize;
                let string_id = (i + 1) as u8;
                if positions[index].0 == 0 && positions[index].1 == 0 {
                    positions.set(index, (string_id, frets[i]));
                }
            }
            i = i + 1;
        }
        let f = Fingering { finger_positions: [positions[0], positions[1], positions[2], positions[3]] };
        assert(f@ =~= positions@);
        f
    }

    /// The effort of moving from this fingering to another one.
    pub open spec fn dist(self, other: Fingering) -> int {
        positions_dist(self@, other@)
    }

    /// The effort of moving from this fingering to another one: the sum of the
    /// efforts of moving each finger.
    pub fn distance(&self, other: Fingering) -> (d: u8)
        requires
            self.dist(other) <= u8::MAX,
        ensures
            d == self.dist(other),
    {
        let d0 = finger_distance(self.finger_positions[0], other.finger_positions[0]);
        let d1 = finger_distance(self.finger_positions[1], other.finger_positions[1]);
        let d2 = finger_distance(self.finger_positions[2], other.finger_positions[2]);
        let d3 = finger_distance(self.finger_positions[3], other.finger_positions[3]);
        d0 + d1 + d2 + d3
    }
}

/// The effort of moving one finger from one position to another.
fn finger_distance(a: FingerPosition, b: FingerPosition) -> (d: u8)
    requires
        position_dist(a, b) <= u8::MAX,
    ensures
        d == position_dist(a, b),
{
    let (s1, f1) = a;
    let (s2, f2) = b;
    let add = s1 == 0 && s2 != 0;
    let remove = s1 != 0 && s2 == 0;
    let slide = s1 == s2 && f1 != f2;
    if add || remove || slide {
        1
    } else {
        let ds = if s1 >= s2 {
            s1 - s2
        } else {
            s2 - s1
        };
        let df = if f1 >= f2 {
            f1 - f2
        } else {
            f2 - f1
        };
        ds + df
    }
}


/// How far a finger moves: nothing if it stays where it is; one if it is
/// put down on a string, lifted off its string, or slid along its string to
/// another fret; and the strings and frets crossed if it moves from one
/// string to another.
pub proof fn law_finger_moves(a: FingerPosition, b: FingerPosition)
    ensures
        a == b ==> position_dist(a, b) == 0,
        a.0 == 0 && b.0 != 0 ==> position_dist(a, b) == 1,
        a.0 != 0 && b.0 == 0 ==> position_dist(a, b) == 1,
        a.0 == b.0 && a.1 != b.1 ==> position_dist(a, b) == 1,
        a.0 != 0 && b.0 != 0 && a.0 != b.0 ==> position_dist(a, b) == (if a.0 >= b.0 {
            a.0 - b.0
        } else {
            b.0 - a.0
        }) + (if a.1 >= b.1 {
            a.1 - b.1
        } else {
            b.1 - a.1
        }),
        position_dist(a, b) == position_dist(b, a),
        position_dist(a, b) >= 0,
{
}

/// When no finger moves from one string to another, the distance between
/// two fingerings is the number of fingers whose position changes: each
/// finger put down, lifted or slid along its string counts one.
pub proof fn law_fingering_counts_moves(f: Fingering, g: Fingering)
    requires
        forall|i: int|
            0 <= i < FINGER_COUNT ==> !((#[trigger] f@[i]).0 != 0 && g@[i].0 != 0 && f@[i].0 != g@[i].0),
    ensures
        f.dist(g) == (if f@[0] != g@[0] { 1int } else { 0int }) + (if f@[1] != g@[1] { 1int } else { 0int }) + (
        if f@[2] != g@[2] {
            1int
        } else {
            0int
        }) + (if f@[3] != g@[3] { 1int } else { 0int }),
{
    assert(!(f@[0].0 != 0 && g@[0].0 != 0 && f@[0].0 != g@[0].0));
    assert(!(f@[1].0 != 0 && g@[1].0 != 0 && f@[1].0 != g@[1].0));
    assert(!(f@[2].0 != 0 && g@[2].0 != 0 && f@[2].0 != g@[2].0));
    assert(!(f@[3].0 != 0 && g@[3].0 != 0 && f@[3].0 != g@[3].0));
    law_finger_moves(f@[0], g@[0]);
    law_finger_moves(f@[1], g@[1]);
    law_finger_moves(f@[2], g@[2]);
    law_finger_moves(f@[3], g@[3]);
}

} // verus!
