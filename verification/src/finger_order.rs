//! How the fingers are laid on the strings: open strings get no finger,
//! pressed strings get one, higher frets get higher fingers, and two strings
//! share a finger only in a barre, where the first finger lies across the
//! lowest pressed fret.

use vstd::prelude::*;

use crate::voicing::{
    count_fret, finish_fret, law_barre_shape, lemma_voicing_len, place_from, place_on_fret,
    place_on_string, FingerState, Voicing,
};
use crate::STRING_COUNT;

verus! {

/// String `i` has had its finger placed when the frets from `first` to `fid`
/// are scanned, fret `fid` only up to string `k`.
pub open spec fn placed(f: Seq<u8>, first: int, fid: int, k: int, i: int) -> bool {
    f[i] != 0 && first <= f[i] && (f[i] < fid || (f[i] == fid && i < k))
}

/// The number of pressed strings still without a finger.
pub open spec fn unplaced(f: Seq<u8>, first: int, fid: int, k: int) -> int {
    (if f[0] != 0 && !placed(f, first, fid, k, 0) { 1int } else { 0int })
        + (if f[1] != 0 && !placed(f, first, fid, k, 1) { 1int } else { 0int })
        + (if f[2] != 0 && !placed(f, first, fid, k, 2) { 1int } else { 0int })
        + (if f[3] != 0 && !placed(f, first, fid, k, 3) { 1int } else { 0int })
}

/// What holds of the finger assignment while it runs: strings without a
/// finger have 0, the others a finger up to the current one, fingers grow
/// with the frets, and two strings share a finger only in a barre on the
/// lowest fret `min`, where the first finger stays until that fret is done.
pub open spec fn assignment_inv(
    f: Seq<u8>,
    first: int,
    min: int,
    fid: int,
    k: int,
    barre: bool,
    pressed: int,
    st: FingerState,
) -> bool {
    let u = unplaced(f, first, fid, k);
    &&& f.len() == STRING_COUNT
    &&& st.0.len() == STRING_COUNT
    &&& 1 <= first <= fid
    &&& 0 <= k <= STRING_COUNT
    &&& st.3 + u == pressed
    &&& 1 <= st.1
    &&& st.1 + u <= 5
    &&& forall|i: int| 0 <= i < STRING_COUNT && !placed(f, first, fid, k, i) ==> #[trigger] st.0[i] == 0
    &&& forall|i: int| 0 <= i < STRING_COUNT && placed(f, first, fid, k, i) ==> 1 <= #[trigger] st.0[i] <= st.1
    &&& forall|i: int|
        0 <= i < STRING_COUNT && placed(f, first, fid, k, i) ==> #[trigger] st.0[i] < st.1 || u == 0 || (barre
            && st.1 == 1 && f[i] == fid)
    &&& forall|i: int, j: int|
        0 <= i < STRING_COUNT && 0 <= j < STRING_COUNT && placed(f, first, fid, k, i) && placed(
            f,
            first,
            fid,
            k,
            j,
        ) && f[i] < f[j] ==> #[trigger] st.0[i] < #[trigger] st.0[j]
    &&& forall|i: int, j: int|
        0 <= i < STRING_COUNT && 0 <= j < STRING_COUNT && i != j && placed(f, first, fid, k, i) && placed(
            f,
            first,
            fid,
            k,
            j,
        ) && #[trigger] st.0[i] == #[trigger] st.0[j] ==> barre && st.0[i] == 1 && f[i] == min && f[j] == min
    &&& barre ==> first == min
    &&& barre && fid == first ==> st.1 == 1
    &&& barre && st.1 == 1 ==> fid == first
    &&& forall|i: int|
        0 <= i < STRING_COUNT && barre && placed(f, first, fid, k, i) && f[i] == min ==> #[trigger] st.0[i] == 1
}

/// Placing a finger on string `k` keeps the invariant.
proof fn lemma_place_on_string(
    f: Seq<u8>,
    first: int,
    min: int,
    fid: int,
    k: int,
    barre: bool,
    pressed: int,
    st: FingerState,
)
    requires
        assignment_inv(f, first, min, fid, k, barre, pressed, st),
        k < STRING_COUNT,
    ensures
        assignment_inv(f, first, min, fid, k + 1, barre, pressed, place_on_string(st, f[k], k, fid, barre)),
{
    let st2 = place_on_string(st, f[k], k, fid, barre);
    assert forall|i: int| 0 <= i < STRING_COUNT implies placed(f, first, fid, k + 1, i) == (placed(
        f,
        first,
        fid,
        k,
        i,
    ) || (i == k && f[k] == fid)) by {}
    if f[k] == fid {
        assert(!placed(f, first, fid, k, k));
        assert(unplaced(f, first, fid, k + 1) == unplaced(f, first, fid, k) - 1);
        assert(st2.0[k] == st.1);
        assert forall|i: int| 0 <= i < STRING_COUNT && i != k implies st2.0[i] == st.0[i] by {}
    } else {
        assert(unplaced(f, first, fid, k + 1) == unplaced(f, first, fid, k));
    }
}

/// Placing the fingers on the first `k` strings of fret `fid` keeps the invariant.
proof fn lemma_place_on_fret(
    f: Seq<u8>,
    first: int,
    min: int,
    fid: int,
    barre: bool,
    pressed: int,
    st: FingerState,
    k: nat,
)
    requires
        assignment_inv(f, first, min, fid, 0, barre, pressed, st),
        k <= STRING_COUNT,
    ensures
        assignment_inv(f, first, min, fid, k as int, barre, pressed, place_on_fret(f, fid, barre, st, k)),
    decreases k,
{
    if k > 0 {
        lemma_place_on_fret(f, first, min, fid, barre, pressed, st, (k - 1) as nat);
        lemma_place_on_string(
            f,
            first,
            min,
            fid,
            k - 1,
            barre,
            pressed,
            place_on_fret(f, fid, barre, st, (k - 1) as nat),
        );
    }
}

/// Finishing fret `fid` and moving on to the next one keeps the invariant.
proof fn lemma_finish_fret(
    f: Seq<u8>,
    first: int,
    min: int,
    fid: int,
    barre: bool,
    pressed: int,
    st: FingerState,
)
    requires
        assignment_inv(f, first, min, fid, STRING_COUNT as int, barre, pressed, st),
        barre ==> count_fret(f, min as u8, STRING_COUNT as nat) >= 2 && 1 <= min <= 255,
        barre && fid == first ==> st.2 == 1,
    ensures
        assignment_inv(f, first, min, fid + 1, 0, barre, pressed, finish_fret(st, pressed)),
        finish_fret(st, pressed).2 == finish_fret(st, pressed).1,
{
    let st2 = finish_fret(st, pressed);
    assert forall|i: int| 0 <= i < STRING_COUNT implies placed(f, first, fid + 1, 0, i) == placed(
        f,
        first,
        fid,
        STRING_COUNT as int,
        i,
    ) by {}
    assert(unplaced(f, first, fid + 1, 0) == unplaced(f, first, fid, STRING_COUNT as int));
    if barre && fid == first {
        reveal_with_fuel(count_fret, 5);
        assert(unplaced(f, first, fid, STRING_COUNT as int) <= 2);
        assert(st2.1 == 2);
    }
}

/// Running the assignment over the frets from `fid` to `last` keeps the invariant.
proof fn lemma_place_from(
    f: Seq<u8>,
    first: int,
    min: int,
    fid: int,
    last: int,
    barre: bool,
    pressed: int,
    st: FingerState,
)
    requires
        assignment_inv(f, first, min, fid, 0, barre, pressed, st),
        st.2 == st.1,
        barre ==> count_fret(f, min as u8, STRING_COUNT as nat) >= 2 && 1 <= min <= 255,
    ensures
        assignment_inv(
            f,
            first,
            min,
            if fid > last { fid } else { last + 1 },
            0,
            barre,
            pressed,
            place_from(f, fid, last, barre, pressed, st),
        ),
    decreases last + 1 - fid,
{
    if fid <= last {
        let st1 = place_on_fret(f, fid, barre, st, STRING_COUNT as nat);
        lemma_place_on_fret(f, first, min, fid, barre, pressed, st, STRING_COUNT as nat);
        lemma_place_on_fret_keeps(f, fid, barre, st, STRING_COUNT as nat);
        let st2 = finish_fret(st1, pressed);
        lemma_finish_fret(f, first, min, fid, barre, pressed, st1);
        lemma_place_from(f, first, min, fid + 1, last, barre, pressed, st2);
    }
}

/// Placing fingers keeps the previous finger and never lowers the current one.
proof fn lemma_place_on_fret_keeps(f: Seq<u8>, fid: int, barre: bool, st: FingerState, k: nat)
    requires
        k <= f.len(),
    ensures
        place_on_fret(f, fid, barre, st, k).2 == st.2,
        place_on_fret(f, fid, barre, st, k).1 >= st.1,
    decreases k,
{
    if k > 0 {
        lemma_place_on_fret_keeps(f, fid, barre, st, (k - 1) as nat);
    }
}

/// The fingers that a voicing is played with: open strings get no finger and
/// pressed strings get one; a string pressed at a lower fret than another
/// gets a lower finger; and two pressed strings get the same finger only in
/// a barre, where every string pressed at the lowest fret gets the first
/// finger.
pub proof fn law_finger_order(v: Voicing)
    ensures
        forall|i: int| 0 <= i < STRING_COUNT ==> (#[trigger] v.finger_seq()[i] == 0 <==> v.fret(i) == 0),
        forall|i: int, j: int|
            0 <= i < STRING_COUNT && 0 <= j < STRING_COUNT && v.fret(i) != 0 && v.fret(i) < v.fret(j)
                ==> #[trigger] v.finger_seq()[i] < #[trigger] v.finger_seq()[j],
        !v.barre() ==> forall|i: int, j: int|
            0 <= i < STRING_COUNT && 0 <= j < STRING_COUNT && i != j && v.fret(i) != 0 && v.fret(j) != 0
                ==> #[trigger] v.finger_seq()[i] != #[trigger] v.finger_seq()[j],
        v.barre() ==> forall|i: int|
            0 <= i < STRING_COUNT && v.fret(i) == v.min_pressed() ==> #[trigger] v.finger_seq()[i] == 1,
{
    lemma_voicing_len(v);
    let f = v.fret_seq();
    assert(f[0] == v.fret(0) && f[1] == v.fret(1) && f[2] == v.fret(2) && f[3] == v.fret(3));
    let first = v.first_finger_fret();
    let min = v.min_pressed() as int;
    let last = v.max_fret() as int;
    let barre = v.barre();
    let pressed = v.pressed_count() as int;
    let st: FingerState = (seq![0u8, 0u8, 0u8, 0u8], 1, 1, 0);
    if barre {
        law_barre_shape(v);
    }
    assert(unplaced(f, first, first, 0) == pressed);
    assert(assignment_inv(f, first, min, first, 0, barre, pressed, st));
    lemma_place_from(f, first, min, first, last, barre, pressed, st);
    let end = if first > last { first } else { last + 1 };
    assert forall|i: int| 0 <= i < STRING_COUNT implies placed(f, first, end, 0, i) == (f[i] != 0) by {}
}

} // verus!
