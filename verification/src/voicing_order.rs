//! The voicings of a chord: every way to play the chord within the
//! configuration is found, and they come in strictly increasing order, no
//! two of them pressing the same frets.

use vstd::prelude::*;

use crate::chord::{fret_candidates, lemma_fret_candidates, played_intervals, Chord};
use crate::chord_type::ChordType;
use crate::combinations::{extend_each, lemma_product_keys_distinct, lemma_product_members, product};
use crate::fret_pattern::FretPattern;
use crate::note::Note;
use crate::pitch_class::{lemma_of_value, lemma_value_of, PitchClass};
use crate::voicing::{
    pitch_in, insert_voicing, lemma_insert_voicing_members, lemma_sort_voicings_members, lemma_voicing_len,
    lemma_voicing_of, sort_voicings, voicing_of, Voicing,
};
use crate::chord::law_voicings_sorted;
use crate::{FretID, UkeString, VoicingConfig, STRING_COUNT};

verus! {

/// The intervals of a chord type lie apart within the octave, and its
/// optional intervals are some of its intervals, each once.
#[verifier::rlimit(50)]
#[verifier::spinoff_prover]
proof fn lemma_intervals_apart(ct: ChordType)
    ensures
        forall|p: int, q: int|
            0 <= p < q < ct.interval_seq().len()
                ==> #[trigger] ct.interval_seq()[p].semitones() % 12 != #[trigger] ct.interval_seq()[q].semitones() % 12,
        forall|k: int| 0 <= k < ct.optional_seq().len() ==> ct.interval_seq().contains(#[trigger] ct.optional_seq()[k]),
        forall|a: int, b: int| 0 <= a < b < ct.optional_seq().len() ==> #[trigger] ct.optional_seq()[a] != #[trigger] ct.optional_seq()[b],
{
    let iv = ct.interval_seq();
    let opt = ct.optional_seq();
    match ct {
        ChordType::Major => {
            assert forall|p: int, q: int| 0 <= p < q < iv.len() implies iv[p].semitones() % 12 != iv[q].semitones() % 12 by {
                if p == 0 && q == 1 {
                } else if p == 0 && q == 2 {
                } else if p == 1 && q == 2 {
                }
            }
        },
        ChordType::MajorSeventh => {
            assert forall|p: int, q: int| 0 <= p < q < iv.len() implies iv[p].semitones() % 12 != iv[q].semitones() % 12 by {
                if p == 0 && q == 1 {
                } else if p == 0 && q == 2 {
                } else if p == 0 && q == 3 {
                } else if p == 1 && q == 2 {
                } else if p == 1 && q == 3 {
                } else if p == 2 && q == 3 {
                }
            }
            assert forall|k: int| 0 <= k < opt.len() implies iv.contains(opt[k]) by {
                if k == 0 {
                    assert(iv[2] == opt[0]);
                }
            }
        },
        ChordType::MajorNinth => {
            assert forall|p: int, q: int| 0 <= p < q < iv.len() implies iv[p].semitones() % 12 != iv[q].semitones() % 12 by {
                if p == 0 && q == 1 {
                } else if p == 0 && q == 2 {
                } else if p == 0 && q == 3 {
                } else if p == 0 && q == 4 {
                } else if p == 1 && q == 2 {
                } else if p == 1 && q == 3 {
                } else if p == 1 && q == 4 {
                } else if p == 2 && q == 3 {
                } else if p == 2 && q == 4 {
                } else if p == 3 && q == 4 {
                }
            }
            assert forall|k: int| 0 <= k < opt.len() implies iv.contains(opt[k]) by {
                if k == 0 {
                    assert(iv[2] == opt[0]);
                }
            }
        },
        ChordType::MajorEleventh => {
            assert forall|p: int, q: int| 0 <= p < q < iv.len() implies iv[p].semitones() % 12 != iv[q].semitones() % 12 by {
                if p == 0 && q == 1 {
                } else if p == 0 && q == 2 {
                } else if p == 0 && q == 3 {
                } else if p == 0 && q == 4 {
                } else if p == 0 && q == 5 {
                } else if p == 1 && q == 2 {
                } else if p == 1 && q == 3 {
                } else if p == 1 && q == 4 {
                } else if p == 1 && q == 5 {
                } else if p == 2 && q == 3 {
                } else if p == 2 && q == 4 {
                } else if p == 2 && q == 5 {
                } else if p == 3 && q == 4 {
                } else if p == 3 && q == 5 {
                } else if p == 4 && q == 5 {
                }
            }
            assert forall|k: int| 0 <= k < opt.len() implies iv.contains(opt[k]) by {
                if k == 0 {
                    assert(iv[2] == opt[0]);
                } else if k == 1 {
                    assert(iv[4] == opt[1]);
                }
            }
            assert forall|a: int, b: int| 0 <= a < b < opt.len() implies opt[a] != opt[b] by {
                if a == 0 && b == 1 {
                }
            }
        },
        ChordType::MajorThirteenth => {
            assert forall|p: int, q: int| 0 <= p < q < iv.len() implies iv[p].semitones() % 12 != iv[q].semitones() % 12 by {
                if p == 0 && q == 1 {
                } else if p == 0 && q == 2 {
                } else if p == 0 && q == 3 {
                } else if p == 0 && q == 4 {
                } else if p == 0 && q == 5 {
                } else if p == 0 && q == 6 {
                } else if p == 1 && q == 2 {
                } else if p == 1 && q == 3 {
                } else if p == 1 && q == 4 {
                } else if p == 1 && q == 5 {
                } else if p == 1 && q == 6 {
                } else if p == 2 && q == 3 {
                } else if p == 2 && q == 4 {
                } else if p == 2 && q == 5 {
                } else if p == 2 && q == 6 {
                } else if p == 3 && q == 4 {
                } else if p == 3 && q == 5 {
                } else if p == 3 && q == 6 {
                } else if p == 4 && q == 5 {
                } else if p == 4 && q == 6 {
                } else if p == 5 && q == 6 {
                }
            }
            assert forall|k: int| 0 <= k < opt.len() implies iv.contains(opt[k]) by {
                if k == 0 {
                    assert(iv[2] == opt[0]);
                } else if k == 1 {
                    assert(iv[4] == opt[1]);
                } else if k == 2 {
                    assert(iv[5] == opt[2]);
                }
            }
            assert forall|a: int, b: int| 0 <= a < b < opt.len() implies opt[a] != opt[b] by {
                if a == 0 && b == 1 {
                } else if a == 0 && b == 2 {
                } else if a == 1 && b == 2 {
                }
            }
        },
        ChordType::MajorSixth => {
            assert forall|p: int, q: int| 0 <= p < q < iv.len() implies iv[p].semitones() % 12 != iv[q].semitones() % 12 by {
                if p == 0 && q == 1 {
                } else if p == 0 && q == 2 {
                } else if p == 0 && q == 3 {
                } else if p == 1 && q == 2 {
                } else if p == 1 && q == 3 {
                } else if p == 2 && q == 3 {
                }
            }
            assert forall|k: int| 0 <= k < opt.len() implies iv.contains(opt[k]) by {
                if k == 0 {
                    assert(iv[2] == opt[0]);
                }
            }
        },
        ChordType::SixthNinth => {
            assert forall|p: int, q: int| 0 <= p < q < iv.len() implies iv[p].semitones() % 12 != iv[q].semitones() % 12 by {
                if p == 0 && q == 1 {
                } else if p == 0 && q == 2 {
                } else if p == 0 && q == 3 {
                } else if p == 0 && q == 4 {
                } else if p == 1 && q == 2 {
                } else if p == 1 && q == 3 {
                } else if p == 1 && q == 4 {
                } else if p == 2 && q == 3 {
                } else if p == 2 && q == 4 {
                } else if p == 3 && q == 4 {
                }
            }
            assert forall|k: int| 0 <= k < opt.len() implies iv.contains(opt[k]) by {
                if k == 0 {
                    assert(iv[2] == opt[0]);
                }
            }
        },
        ChordType::DominantSeventh => {
            assert forall|p: int, q: int| 0 <= p < q < iv.len() implies iv[p].semitones() % 12 != iv[q].semitones() % 12 by {
                if p == 0 && q == 1 {
                } else if p == 0 && q == 2 {
                } else if p == 0 && q == 3 {
                } else if p == 1 && q == 2 {
                } else if p == 1 && q == 3 {
                } else if p == 2 && q == 3 {
                }
            }
            assert forall|k: int| 0 <= k < opt.len() implies iv.contains(opt[k]) by {
                if k == 0 {
                    assert(iv[2] == opt[0]);
                }
            }
        },
        ChordType::DominantNinth => {
            assert forall|p: int, q: int| 0 <= p < q < iv.len() implies iv[p].semitones() % 12 != iv[q].semitones() % 12 by {
                if p == 0 && q == 1 {
                } else if p == 0 && q == 2 {
                } else if p == 0 && q == 3 {
                } else if p == 0 && q == 4 {
                } else if p == 1 && q == 2 {
                } else if p == 1 && q == 3 {
                } else if p == 1 && q == 4 {
                } else if p == 2 && q == 3 {
                } else if p == 2 && q == 4 {
                } else if p == 3 && q == 4 {
                }
            }
            assert forall|k: int| 0 <= k < opt.len() implies iv.contains(opt[k]) by {
                if k == 0 {
                    assert(iv[2] == opt[0]);
                }
            }
        },
        ChordType::DominantEleventh => {
            assert forall|p: int, q: int| 0 <= p < q < iv.len() implies iv[p].semitones() % 12 != iv[q].semitones() % 12 by {
                if p == 0 && q == 1 {
                } else if p == 0 && q == 2 {
                } else if p == 0 && q == 3 {
                } else if p == 0 && q == 4 {
                } else if p == 0 && q == 5 {
                } else if p == 1 && q == 2 {
                } else if p == 1 && q == 3 {
                } else if p == 1 && q == 4 {
                } else if p == 1 && q == 5 {
                } else if p == 2 && q == 3 {
                } else if p == 2 && q == 4 {
                } else if p == 2 && q == 5 {
                } else if p == 3 && q == 4 {
                } else if p == 3 && q == 5 {
                } else if p == 4 && q == 5 {
                }
            }
            assert forall|k: int| 0 <= k < opt.len() implies iv.contains(opt[k]) by {
                if k == 0 {
                    assert(iv[2] == opt[0]);
                } else if k == 1 {
                    assert(iv[4] == opt[1]);
                }
            }
            assert forall|a: int, b: int| 0 <= a < b < opt.len() implies opt[a] != opt[b] by {
                if a == 0 && b == 1 {
                }
            }
        },
        ChordType::DominantThirteenth => {
            assert forall|p: int, q: int| 0 <= p < q < iv.len() implies iv[p].semitones() % 12 != iv[q].semitones() % 12 by {
                if p == 0 && q == 1 {
                } else if p == 0 && q == 2 {
                } else if p == 0 && q == 3 {
                } else if p == 0 && q == 4 {
                } else if p == 0 && q == 5 {
                } else if p == 0 && q == 6 {
                } else if p == 1 && q == 2 {
                } else if p == 1 && q == 3 {
                } else if p == 1 && q == 4 {
                } else if p == 1 && q == 5 {
                } else if p == 1 && q == 6 {
                } else if p == 2 && q == 3 {
                } else if p == 2 && q == 4 {
                } else if p == 2 && q == 5 {
                } else if p == 2 && q == 6 {
                } else if p == 3 && q == 4 {
                } else if p == 3 && q == 5 {
                } else if p == 3 && q == 6 {
                } else if p == 4 && q == 5 {
                } else if p == 4 && q == 6 {
                } else if p == 5 && q == 6 {
                }
            }
            assert forall|k: int| 0 <= k < opt.len() implies iv.contains(opt[k]) by {
                if k == 0 {
                    assert(iv[2] == opt[0]);
                } else if k == 1 {
                    assert(iv[4] == opt[1]);
                } else if k == 2 {
                    assert(iv[5] == opt[2]);
                }
            }
            assert forall|a: int, b: int| 0 <= a < b < opt.len() implies opt[a] != opt[b] by {
                if a == 0 && b == 1 {
                } else if a == 0 && b == 2 {
                } else if a == 1 && b == 2 {
                }
            }
        },
        ChordType::DominantSeventhFlatNinth => {
            assert forall|p: int, q: int| 0 <= p < q < iv.len() implies iv[p].semitones() % 12 != iv[q].semitones() % 12 by {
                if p == 0 && q == 1 {
                } else if p == 0 && q == 2 {
                } else if p == 0 && q == 3 {
                } else if p == 0 && q == 4 {
                } else if p == 1 && q == 2 {
                } else if p == 1 && q == 3 {
                } else if p == 1 && q == 4 {
                } else if p == 2 && q == 3 {
                } else if p == 2 && q == 4 {
                } else if p == 3 && q == 4 {
                }
            }
            assert forall|k: int| 0 <= k < opt.len() implies iv.contains(opt[k]) by {
                if k == 0 {
                    assert(iv[2] == opt[0]);
                }
            }
        },
        ChordType::DominantSeventhSharpNinth => {
            assert forall|p: int, q: int| 0 <= p < q < iv.len() implies iv[p].semitones() % 12 != iv[q].semitones() % 12 by {
                if p == 0 && q == 1 {
                } else if p == 0 && q == 2 {
                } else if p == 0 && q == 3 {
                } else if p == 0 && q == 4 {
                } else if p == 1 && q == 2 {
                } else if p == 1 && q == 3 {
                } else if p == 1 && q == 4 {
                } else if p == 2 && q == 3 {
                } else if p == 2 && q == 4 {
                } else if p == 3 && q == 4 {
                }
            }
            assert forall|k: int| 0 <= k < opt.len() implies iv.contains(opt[k]) by {
                if k == 0 {
                    assert(iv[2] == opt[0]);
                }
            }
        },
        ChordType::DominantSeventhFlatFifth => {
            assert forall|p: int, q: int| 0 <= p < q < iv.len() implies iv[p].semitones() % 12 != iv[q].semitones() % 12 by {
                if p == 0 && q == 1 {
                } else if p == 0 && q == 2 {
                } else if p == 0 && q == 3 {
                } else if p == 1 && q == 2 {
                } else if p == 1 && q == 3 {
                } else if p == 2 && q == 3 {
                }
            }
        },
        ChordType::SuspendedFourth => {
            assert forall|p: int, q: int| 0 <= p < q < iv.len() implies iv[p].semitones() % 12 != iv[q].semitones() % 12 by {
                if p == 0 && q == 1 {
                } else if p == 0 && q == 2 {
                } else if p == 1 && q == 2 {
                }
            }
            assert forall|k: int| 0 <= k < opt.len() implies iv.contains(opt[k]) by {
                if k == 0 {
                    assert(iv[2] == opt[0]);
                }
            }
        },
        ChordType::SuspendedSecond => {
            assert forall|p: int, q: int| 0 <= p < q < iv.len() implies iv[p].semitones() % 12 != iv[q].semitones() % 12 by {
                if p == 0 && q == 1 {
                } else if p == 0 && q == 2 {
                } else if p == 1 && q == 2 {
                }
            }
            assert forall|k: int| 0 <= k < opt.len() implies iv.contains(opt[k]) by {
                if k == 0 {
                    assert(iv[2] == opt[0]);
                }
            }
        },
        ChordType::DominantSeventhSuspendedFourth => {
            assert forall|p: int, q: int| 0 <= p < q < iv.len() implies iv[p].semitones() % 12 != iv[q].semitones() % 12 by {
                if p == 0 && q == 1 {
                } else if p == 0 && q == 2 {
                } else if p == 0 && q == 3 {
                } else if p == 1 && q == 2 {
                } else if p == 1 && q == 3 {
                } else if p == 2 && q == 3 {
                }
            }
            assert forall|k: int| 0 <= k < opt.len() implies iv.contains(opt[k]) by {
                if k == 0 {
                    assert(iv[2] == opt[0]);
                }
            }
        },
        ChordType::DominantSeventhSuspendedSecond => {
            assert forall|p: int, q: int| 0 <= p < q < iv.len() implies iv[p].semitones() % 12 != iv[q].semitones() % 12 by {
                if p == 0 && q == 1 {
                } else if p == 0 && q == 2 {
                } else if p == 0 && q == 3 {
                } else if p == 1 && q == 2 {
                } else if p == 1 && q == 3 {
                } else if p == 2 && q == 3 {
                }
            }
            assert forall|k: int| 0 <= k < opt.len() implies iv.contains(opt[k]) by {
                if k == 0 {
                    assert(iv[2] == opt[0]);
                }
            }
        },
        ChordType::Minor => {
            assert forall|p: int, q: int| 0 <= p < q < iv.len() implies iv[p].semitones() % 12 != iv[q].semitones() % 12 by {
                if p == 0 && q == 1 {
                } else if p == 0 && q == 2 {
                } else if p == 1 && q == 2 {
                }
            }
        },
        ChordType::MinorSeventh => {
            assert forall|p: int, q: int| 0 <= p < q < iv.len() implies iv[p].semitones() % 12 != iv[q].semitones() % 12 by {
                if p == 0 && q == 1 {
                } else if p == 0 && q == 2 {
                } else if p == 0 && q == 3 {
                } else if p == 1 && q == 2 {
                } else if p == 1 && q == 3 {
                } else if p == 2 && q == 3 {
                }
            }
            assert forall|k: int| 0 <= k < opt.len() implies iv.contains(opt[k]) by {
                if k == 0 {
                    assert(iv[2] == opt[0]);
                }
            }
        },
        ChordType::MinorMajorSeventh => {
            assert forall|p: int, q: int| 0 <= p < q < iv.len() implies iv[p].semitones() % 12 != iv[q].semitones() % 12 by {
                if p == 0 && q == 1 {
                } else if p == 0 && q == 2 {
                } else if p == 0 && q == 3 {
                } else if p == 1 && q == 2 {
                } else if p == 1 && q == 3 {
                } else if p == 2 && q == 3 {
                }
            }
            assert forall|k: int| 0 <= k < opt.len() implies iv.contains(opt[k]) by {
                if k == 0 {
                    assert(iv[2] == opt[0]);
                }
            }
        },
        ChordType::MinorSixth => {
            assert forall|p: int, q: int| 0 <= p < q < iv.len() implies iv[p].semitones() % 12 != iv[q].semitones() % 12 by {
                if p == 0 && q == 1 {
                } else if p == 0 && q == 2 {
                } else if p == 0 && q == 3 {
                } else if p == 1 && q == 2 {
                } else if p == 1 && q == 3 {
                } else if p == 2 && q == 3 {
                }
            }
            assert forall|k: int| 0 <= k < opt.len() implies iv.contains(opt[k]) by {
                if k == 0 {
                    assert(iv[2] == opt[0]);
                }
            }
        },
        ChordType::MinorNinth => {
            assert forall|p: int, q: int| 0 <= p < q < iv.len() implies iv[p].semitones() % 12 != iv[q].semitones() % 12 by {
                if p == 0 && q == 1 {
                } else if p == 0 && q == 2 {
                } else if p == 0 && q == 3 {
                } else if p == 0 && q == 4 {
                } else if p == 1 && q == 2 {
                } else if p == 1 && q == 3 {
                } else if p == 1 && q == 4 {
                } else if p == 2 && q == 3 {
                } else if p == 2 && q == 4 {
                } else if p == 3 && q == 4 {
                }
            }
            assert forall|k: int| 0 <= k < opt.len() implies iv.contains(opt[k]) by {
                if k == 0 {
                    assert(iv[2] == opt[0]);
                }
            }
        },
        ChordType::MinorEleventh => {
            assert forall|p: int, q: int| 0 <= p < q < iv.len() implies iv[p].semitones() % 12 != iv[q].semitones() % 12 by {
                if p == 0 && q == 1 {
                } else if p == 0 && q == 2 {
                } else if p == 0 && q == 3 {
                } else if p == 0 && q == 4 {
                } else if p == 0 && q == 5 {
                } else if p == 1 && q == 2 {
                } else if p == 1 && q == 3 {
                } else if p == 1 && q == 4 {
                } else if p == 1 && q == 5 {
                } else if p == 2 && q == 3 {
                } else if p == 2 && q == 4 {
                } else if p == 2 && q == 5 {
                } else if p == 3 && q == 4 {
                } else if p == 3 && q == 5 {
                } else if p == 4 && q == 5 {
                }
            }
            assert forall|k: int| 0 <= k < opt.len() implies iv.contains(opt[k]) by {
                if k == 0 {
                    assert(iv[2] == opt[0]);
                } else if k == 1 {
                    assert(iv[4] == opt[1]);
                }
            }
            assert forall|a: int, b: int| 0 <= a < b < opt.len() implies opt[a] != opt[b] by {
                if a == 0 && b == 1 {
                }
            }
        },
        ChordType::MinorThirteenth => {
            assert forall|p: int, q: int| 0 <= p < q < iv.len() implies iv[p].semitones() % 12 != iv[q].semitones() % 12 by {
                if p == 0 && q == 1 {
                } else if p == 0 && q == 2 {
                } else if p == 0 && q == 3 {
                } else if p == 0 && q == 4 {
                } else if p == 0 && q == 5 {
                } else if p == 0 && q == 6 {
                } else if p == 1 && q == 2 {
                } else if p == 1 && q == 3 {
                } else if p == 1 && q == 4 {
                } else if p == 1 && q == 5 {
                } else if p == 1 && q == 6 {
                } else if p == 2 && q == 3 {
                } else if p == 2 && q == 4 {
                } else if p == 2 && q == 5 {
                } else if p == 2 && q == 6 {
                } else if p == 3 && q == 4 {
                } else if p == 3 && q == 5 {
                } else if p == 3 && q == 6 {
                } else if p == 4 && q == 5 {
                } else if p == 4 && q == 6 {
                } else if p == 5 && q == 6 {
                }
            }
            assert forall|k: int| 0 <= k < opt.len() implies iv.contains(opt[k]) by {
                if k == 0 {
                    assert(iv[2] == opt[0]);
                } else if k == 1 {
                    assert(iv[4] == opt[1]);
                } else if k == 2 {
                    assert(iv[5] == opt[2]);
                }
            }
            assert forall|a: int, b: int| 0 <= a < b < opt.len() implies opt[a] != opt[b] by {
                if a == 0 && b == 1 {
                } else if a == 0 && b == 2 {
                } else if a == 1 && b == 2 {
                }
            }
        },
        ChordType::Diminished => {
            assert forall|p: int, q: int| 0 <= p < q < iv.len() implies iv[p].semitones() % 12 != iv[q].semitones() % 12 by {
                if p == 0 && q == 1 {
                } else if p == 0 && q == 2 {
                } else if p == 1 && q == 2 {
                }
            }
        },
        ChordType::DiminishedSeventh => {
            assert forall|p: int, q: int| 0 <= p < q < iv.len() implies iv[p].semitones() % 12 != iv[q].semitones() % 12 by {
                if p == 0 && q == 1 {
                } else if p == 0 && q == 2 {
                } else if p == 0 && q == 3 {
                } else if p == 1 && q == 2 {
                } else if p == 1 && q == 3 {
                } else if p == 2 && q == 3 {
                }
            }
        },
        ChordType::HalfDiminishedSeventh => {
            assert forall|p: int, q: int| 0 <= p < q < iv.len() implies iv[p].semitones() % 12 != iv[q].semitones() % 12 by {
                if p == 0 && q == 1 {
                } else if p == 0 && q == 2 {
                } else if p == 0 && q == 3 {
                } else if p == 1 && q == 2 {
                } else if p == 1 && q == 3 {
                } else if p == 2 && q == 3 {
                }
            }
        },
        ChordType::Fifth => {
            assert forall|p: int, q: int| 0 <= p < q < iv.len() implies iv[p].semitones() % 12 != iv[q].semitones() % 12 by {
                if p == 0 && q == 1 {
                }
            }
        },
        ChordType::Augmented => {
            assert forall|p: int, q: int| 0 <= p < q < iv.len() implies iv[p].semitones() % 12 != iv[q].semitones() % 12 by {
                if p == 0 && q == 1 {
                } else if p == 0 && q == 2 {
                } else if p == 1 && q == 2 {
                }
            }
        },
        ChordType::AugmentedSeventh => {
            assert forall|p: int, q: int| 0 <= p < q < iv.len() implies iv[p].semitones() % 12 != iv[q].semitones() % 12 by {
                if p == 0 && q == 1 {
                } else if p == 0 && q == 2 {
                } else if p == 0 && q == 3 {
                } else if p == 1 && q == 2 {
                } else if p == 1 && q == 3 {
                } else if p == 2 && q == 3 {
                }
            }
        },
        ChordType::AugmentedMajorSeventh => {
            assert forall|p: int, q: int| 0 <= p < q < iv.len() implies iv[p].semitones() % 12 != iv[q].semitones() % 12 by {
                if p == 0 && q == 1 {
                } else if p == 0 && q == 2 {
                } else if p == 0 && q == 3 {
                } else if p == 1 && q == 2 {
                } else if p == 1 && q == 3 {
                } else if p == 2 && q == 3 {
                }
            }
        },
        ChordType::AddedNinth => {
            assert forall|p: int, q: int| 0 <= p < q < iv.len() implies iv[p].semitones() % 12 != iv[q].semitones() % 12 by {
                if p == 0 && q == 1 {
                } else if p == 0 && q == 2 {
                } else if p == 0 && q == 3 {
                } else if p == 1 && q == 2 {
                } else if p == 1 && q == 3 {
                } else if p == 2 && q == 3 {
                }
            }
            assert forall|k: int| 0 <= k < opt.len() implies iv.contains(opt[k]) by {
                if k == 0 {
                    assert(iv[2] == opt[0]);
                }
            }
        },
        ChordType::AddedFourth => {
            assert forall|p: int, q: int| 0 <= p < q < iv.len() implies iv[p].semitones() % 12 != iv[q].semitones() % 12 by {
                if p == 0 && q == 1 {
                } else if p == 0 && q == 2 {
                } else if p == 0 && q == 3 {
                } else if p == 1 && q == 2 {
                } else if p == 1 && q == 3 {
                } else if p == 2 && q == 3 {
                }
            }
            assert forall|k: int| 0 <= k < opt.len() implies iv.contains(opt[k]) by {
                if k == 0 {
                    assert(iv[3] == opt[0]);
                }
            }
        },
    }
}

/// Keeping some entries of a list whose keys differ gives a list whose keys differ.
proof fn lemma_filter_keys_distinct<A, K>(s: Seq<A>, pred: spec_fn(A) -> bool, key: spec_fn(A) -> K)
    requires
        forall|i: int, j: int| 0 <= i < j < s.len() ==> key(#[trigger] s[i]) != key(#[trigger] s[j]),
    ensures
        forall|i: int, j: int|
            0 <= i < j < s.filter(pred).len() ==> key(#[trigger] s.filter(pred)[i]) != key(
                #[trigger] s.filter(pred)[j],
            ),
    decreases s.len(),
{
    reveal(Seq::filter);
    if s.len() > 0 {
        let t = s.drop_last();
        assert forall|i: int, j: int| 0 <= i < j < t.len() implies key(#[trigger] t[i]) != key(#[trigger] t[j]) by {
            assert(t[i] == s[i] && t[j] == s[j]);
        }
        lemma_filter_keys_distinct(t, pred, key);
        let sub = t.filter(pred);
        if pred(s.last()) {
            let f = s.filter(pred);
            assert(f == sub.push(s.last()));
            assert forall|i: int, j: int| 0 <= i < j < f.len() implies key(#[trigger] f[i]) != key(#[trigger] f[j]) by {
                if j == f.len() - 1 {
                    assert(f[i] == sub[i]);
                    assert(sub.contains(sub[i]));
                    t.lemma_filter_contains_rev(pred, sub[i]);
                    let m = choose|m: int| 0 <= m < t.len() && t[m] == sub[i];
                    assert(s[m] == sub[i]);
                    assert(s[s.len() - 1] == s.last());
                } else {
                    assert(f[i] == sub[i] && f[j] == sub[j]);
                }
            }
        }
    }
}

/// The intervals of a chord type that are played lie apart within the octave.
proof fn lemma_played_apart(ct: ChordType)
    ensures
        forall|i: int, j: int|
            0 <= i < j < played_intervals(ct).len() ==> (#[trigger] played_intervals(ct)[i]).semitones() % 12
                != (#[trigger] played_intervals(ct)[j]).semitones() % 12,
{
    lemma_intervals_apart(ct);
    let iv = ct.interval_seq();
    let opt = ct.optional_seq();
    let keep = |i: crate::interval::Interval| !opt.contains(i);
    let req = ct.required_seq();
    assert(req == iv.filter(keep));
    let all = req + opt;
    let id = |i: crate::interval::Interval| i;
    assert forall|p: int, q: int| 0 <= p < q < iv.len() implies id(#[trigger] iv[p]) != id(#[trigger] iv[q]) by {}
    lemma_filter_keys_distinct(iv, keep, id);
    assert forall|i: int| 0 <= i < all.len() implies iv.contains(#[trigger] all[i]) by {
        if i < req.len() {
            assert(req.contains(req[i]));
            iv.lemma_filter_contains_rev(keep, req[i]);
        } else {
            assert(all[i] == opt[i - req.len()]);
        }
    }
    assert forall|i: int, j: int| 0 <= i < j < all.len() implies (#[trigger] all[i]).semitones() % 12
        != (#[trigger] all[j]).semitones() % 12 by {
        if j < req.len() {
            assert(id(req[i]) != id(req[j]));
        } else if i >= req.len() {
            assert(all[i] == opt[i - req.len()] && all[j] == opt[j - req.len()]);
        } else {
            iv.lemma_filter_pred(keep, i);
            assert(all[j] == opt[j - req.len()]);
            assert(opt.contains(all[j]));
        }
        assert(iv.contains(all[i]) && iv.contains(all[j]));
        let p = choose|p: int| 0 <= p < iv.len() && iv[p] == all[i];
        let q = choose|q: int| 0 <= q < iv.len() && iv[q] == all[j];
        if p < q {
            assert(iv[p].semitones() % 12 != iv[q].semitones() % 12);
        } else if q < p {
            assert(iv[q].semitones() % 12 != iv[p].semitones() % 12);
        }
    }
    let pl = played_intervals(ct);
    assert forall|i: int, j: int| 0 <= i < j < pl.len() implies (#[trigger] pl[i]).semitones() % 12
        != (#[trigger] pl[j]).semitones() % 12 by {
        assert(pl[i] == all[i] && pl[j] == all[j]);
    }
}

/// The notes of a chord that are played have different pitch classes.
proof fn lemma_played_pitches_apart(chord: Chord)
    ensures
        forall|i: int, j: int|
            0 <= i < j < chord.played().len() ==> (#[trigger] chord.played()[i]).pitch_class != (
            #[trigger] chord.played()[j]).pitch_class,
{
    lemma_played_apart(chord.chord_type);
    let pl = played_intervals(chord.chord_type);
    let r = chord.root.pitch_class.value();
    assert forall|i: int, j: int| 0 <= i < j < chord.played().len() implies (
    #[trigger] chord.played()[i]).pitch_class != (#[trigger] chord.played()[j]).pitch_class by {
        let a = pl[i].semitones();
        let b = pl[j].semitones();
        lemma_value_of((r + a) as int);
        lemma_value_of((r + b) as int);
        assert(chord.played()[i].pitch_class == PitchClass::of((r + a) as int));
        assert(chord.played()[j].pitch_class == PitchClass::of((r + b) as int));
        assert(a % 12 != b % 12);
        assert((r + a) % 12 != (r + b) % 12) by (nonlinear_arith)
            requires
                a % 12 != b % 12,
        {
        }
    }
}

/// Different pitch classes lie at different distances above a root.
proof fn lemma_distance_above(p: PitchClass, q: PitchClass, root: PitchClass)
    requires
        p != q,
    ensures
        (p.value() - root.value()) % 12 != (q.value() - root.value()) % 12,
{
    lemma_of_value(p);
    lemma_of_value(q);
    lemma_of_value(root);
    if (p.value() - root.value()) % 12 == (q.value() - root.value()) % 12 {
        assert(p.value() == q.value());
        assert(PitchClass::of(p.value() as int) == PitchClass::of(q.value() as int));
    }
}

/// The candidates for one more note: those for the notes before it, then
/// those for the new note, whose frets lie at its distance above the root
/// and differ from each other.
proof fn lemma_candidates_step(played: Seq<Note>, root: Note, min: u8, max: u8)
    requires
        played.len() > 0,
    ensures
        ({
            let prev = fret_candidates(played.drop_last(), root, min, max);
            let c = fret_candidates(played, root, min, max);
            let d = (played.last().pitch_class.value() - root.pitch_class.value()) % 12;
            &&& prev.len() <= c.len()
            &&& forall|a: int| 0 <= a < prev.len() ==> #[trigger] c[a] == prev[a]
            &&& forall|a: int| prev.len() <= a < c.len() ==> (#[trigger] c[a]).1 % 12 == d
            &&& forall|a: int, b: int| prev.len() <= a < b < c.len() ==> (#[trigger] c[a]).1 != (#[trigger] c[b]).1
        }),
{
}

/// The frets offered for a string by different notes of distinct pitch
/// classes differ.
proof fn lemma_candidates_apart(played: Seq<Note>, root: Note, min: u8, max: u8)
    requires
        forall|i: int, j: int| 0 <= i < j < played.len() ==> (#[trigger] played[i]).pitch_class != (
        #[trigger] played[j]).pitch_class,
    ensures
        forall|a: int, b: int|
            0 <= a < b < fret_candidates(played, root, min, max).len() ==> (#[trigger] fret_candidates(
                played,
                root,
                min,
                max,
            )[a]).1 != (#[trigger] fret_candidates(played, root, min, max)[b]).1,
        forall|a: int|
            0 <= a < fret_candidates(played, root, min, max).len() ==> exists|m: int|
                0 <= m < played.len() && (#[trigger] fret_candidates(played, root, min, max)[a]).1 % 12 == (
                played[m].pitch_class.value() - root.pitch_class.value()) % 12,
    decreases played.len(),
{
    if played.len() > 0 {
        let init = played.drop_last();
        assert forall|i: int, j: int| 0 <= i < j < init.len() implies (#[trigger] init[i]).pitch_class != (
        #[trigger] init[j]).pitch_class by {
            assert(init[i] == played[i] && init[j] == played[j]);
        }
        lemma_candidates_apart(init, root, min, max);
        lemma_candidates_step(played, root, min, max);
        let prev = fret_candidates(init, root, min, max);
        let n = played.last();
        let d = (n.pitch_class.value() - root.pitch_class.value()) % 12;
        let c = fret_candidates(played, root, min, max);
        assert(played[played.len() - 1] == n);
        assert forall|a: int| 0 <= a < prev.len() implies (#[trigger] prev[a]).1 % 12 != d by {
            let m = choose|m: int| 0 <= m < init.len() && prev[a].1 % 12 == (init[m].pitch_class.value()
                - root.pitch_class.value()) % 12;
            assert(init[m] == played[m]);
            lemma_distance_above(played[m].pitch_class, n.pitch_class, root.pitch_class);
        }
        assert forall|a: int| 0 <= a < c.len() implies exists|m: int|
            0 <= m < played.len() && (#[trigger] c[a]).1 % 12 == (played[m].pitch_class.value()
                - root.pitch_class.value()) % 12 by {
            if a < prev.len() {
                let m = choose|m: int| 0 <= m < init.len() && prev[a].1 % 12 == (init[m].pitch_class.value()
                    - root.pitch_class.value()) % 12;
                assert(init[m] == played[m]);
                assert(c[a] == prev[a]);
            } else {
                assert(c[a].1 % 12 == d);
            }
        }
        assert forall|a: int, b: int| 0 <= a < b < c.len() implies (#[trigger] c[a]).1 != (#[trigger] c[b]).1 by {
            if b < prev.len() {
                assert(c[a] == prev[a] && c[b] == prev[b]);
            } else if a < prev.len() {
                assert(c[a] == prev[a]);
                assert(c[b].1 % 12 == d);
                assert(prev[a].1 % 12 != d);
            }
        }
    }
}

/// No two voicings of the list press the same frets.
pub open spec fn frets_distinct(s: Seq<Voicing>) -> bool {
    forall|i: int, j: int| 0 <= i < j < s.len() ==> (#[trigger] s[i]).fret_seq() != (#[trigger] s[j]).fret_seq()
}

/// Inserting a voicing whose frets no voicing of the list presses keeps the
/// frets distinct.
proof fn lemma_insert_distinct(s: Seq<Voicing>, x: Voicing)
    requires
        frets_distinct(s),
        forall|k: int| 0 <= k < s.len() ==> (#[trigger] s[k]).fret_seq() != x.fret_seq(),
    ensures
        frets_distinct(insert_voicing(s, x)),
    decreases s.len(),
{
    let r = insert_voicing(s, x);
    if s.len() == 0 {
    } else if x.before(s[0]) {
        assert forall|i: int, j: int| 0 <= i < j < r.len() implies (#[trigger] r[i]).fret_seq() != (
        #[trigger] r[j]).fret_seq() by {
            assert(r[j] == s[j - 1]);
            if i > 0 {
                assert(r[i] == s[i - 1]);
            }
        }
    } else {
        let t = s.drop_first();
        assert forall|i: int, j: int| 0 <= i < j < t.len() implies (#[trigger] t[i]).fret_seq() != (
        #[trigger] t[j]).fret_seq() by {
            assert(t[i] == s[i + 1] && t[j] == s[j + 1]);
        }
        assert forall|k: int| 0 <= k < t.len() implies (#[trigger] t[k]).fret_seq() != x.fret_seq() by {
            assert(t[k] == s[k + 1]);
        }
        lemma_insert_distinct(t, x);
        lemma_insert_voicing_members(t, x);
        let rt = insert_voicing(t, x);
        assert forall|i: int, j: int| 0 <= i < j < r.len() implies (#[trigger] r[i]).fret_seq() != (
        #[trigger] r[j]).fret_seq() by {
            assert(r[j] == rt[j - 1]);
            if i > 0 {
                assert(r[i] == rt[i - 1]);
            } else {
                assert(r[0] == s[0]);
                if rt[j - 1] != x {
                    let m = choose|m: int| 0 <= m < t.len() && t[m] == rt[j - 1];
                    assert(s[m + 1] == t[m]);
                }
            }
        }
    }
}

/// Sorting keeps the frets distinct.
proof fn lemma_sort_distinct(s: Seq<Voicing>)
    requires
        frets_distinct(s),
    ensures
        frets_distinct(sort_voicings(s)),
    decreases s.len(),
{
    if s.len() > 0 {
        let t = s.drop_last();
        assert forall|i: int, j: int| 0 <= i < j < t.len() implies (#[trigger] t[i]).fret_seq() != (
        #[trigger] t[j]).fret_seq() by {
            assert(t[i] == s[i] && t[j] == s[j]);
        }
        lemma_sort_distinct(t);
        lemma_sort_voicings_members(t);
        let st = sort_voicings(t);
        assert forall|k: int| 0 <= k < st.len() implies (#[trigger] st[k]).fret_seq() != s.last().fret_seq() by {
            assert(t.contains(st[k]));
            let m = choose|m: int| 0 <= m < t.len() && t[m] == st[k];
            assert(s[m] == st[k]);
            assert(s[s.len() - 1] == s.last());
        }
        lemma_insert_distinct(st, s.last());
    }
}

/// Of two voicings that press different frets, one comes before the other.
proof fn lemma_before_total(v: Voicing, w: Voicing)
    requires
        v.fret_seq() != w.fret_seq(),
    ensures
        v.before(w) || w.before(v),
{
    lemma_voicing_len(v);
    lemma_voicing_len(w);
    if v.fret(0) == w.fret(0) && v.fret(1) == w.fret(1) && v.fret(2) == w.fret(2) && v.fret(3) == w.fret(3) {
        assert(v.fret_seq() =~= w.fret_seq());
    }
}

/// The voicings of a chord come in strictly increasing order: each voicing
/// comes before every later one, so no voicing occurs twice.
pub proof fn law_voicings_strictly_sorted(chord: Chord, config: VoicingConfig)
    ensures
        forall|i: int, j: int|
            0 <= i < j < chord.voicing_seq(config).len() ==> (#[trigger] chord.voicing_seq(config)[i]).before(
                #[trigger] chord.voicing_seq(config)[j],
            ),
{
    let cl = chord.candidate_lists(config);
    let fret_of = |u: UkeString| u.1;
    lemma_played_pitches_apart(chord);
    assert(config.tuning.root_seq().len() == STRING_COUNT);
    assert forall|l: int, a: int, b: int| 0 <= l < cl.len() && 0 <= a < b < cl[l].len() implies fret_of(
        #[trigger] cl[l][a],
    ) != fret_of(#[trigger] cl[l][b]) by {
        lemma_candidates_apart(chord.played(), config.tuning.root_seq()[l], config.min_fret, config.max_fret);
    }
    lemma_product_keys_distinct(cl, fret_of);
    let combos = product(cl);
    let mapped = combos.map_values(|c: Seq<UkeString>| voicing_of(c));
    let key = |v: Voicing| v.fret_seq();
    assert forall|i: int, j: int| 0 <= i < j < mapped.len() implies key(#[trigger] mapped[i]) != key(
        #[trigger] mapped[j],
    ) by {
        lemma_product_members(cl, i);
        lemma_product_members(cl, j);
        lemma_voicing_of(combos[i]);
        lemma_voicing_of(combos[j]);
        assert(mapped[i].fret_seq() =~= combos[i].map_values(fret_of));
        assert(mapped[j].fret_seq() =~= combos[j].map_values(fret_of));
    }
    let keep = |v: Voicing| chord.keeps(config, v);
    lemma_filter_keys_distinct(mapped, keep, key);
    let filtered = mapped.filter(keep);
    assert(frets_distinct(filtered)) by {
        assert forall|i: int, j: int| 0 <= i < j < filtered.len() implies (#[trigger] filtered[i]).fret_seq()
            != (#[trigger] filtered[j]).fret_seq() by {
            assert(key(filtered[i]) != key(filtered[j]));
        }
    }
    lemma_sort_distinct(filtered);
    law_voicings_sorted(chord, config);
    let vs = chord.voicing_seq(config);
    assert(vs == sort_voicings(filtered));
    assert forall|i: int, j: int| 0 <= i < j < vs.len() implies (#[trigger] vs[i]).before(#[trigger] vs[j]) by {
        lemma_before_total(vs[i], vs[j]);
    }
}

/// A note of the chord, at a fret where it lies within the first two octaves
/// of the string and within the range, is a candidate for that string.
proof fn lemma_candidate_found(played: Seq<Note>, root: Note, min: u8, max: u8, m: int, x: int)
    requires
        0 <= m < played.len(),
        min <= x <= max,
        x == (played[m].pitch_class.value() - root.pitch_class.value()) % 12 || x == (
        played[m].pitch_class.value() - root.pitch_class.value()) % 12 + 12,
    ensures
        fret_candidates(played, root, min, max).contains((root, x as u8, played[m])),
    decreases played.len(),
{
    let c = fret_candidates(played, root, min, max);
    let prev = fret_candidates(played.drop_last(), root, min, max);
    if m < played.len() - 1 {
        lemma_candidate_found(played.drop_last(), root, min, max, m, x);
        assert(played.drop_last()[m] == played[m]);
        let k = choose|k: int| 0 <= k < prev.len() && prev[k] == (root, x as u8, played[m]);
        lemma_candidates_prefix(played, root, min, max);
        assert(c[k] == prev[k]);
    } else {
        assert(played.last() == played[m]);
        lemma_candidates_prefix(played, root, min, max);
    }
}

/// The candidates for a list of notes begin with those for all but its last
/// note, followed by the last note at its fret and at its fret an octave up,
/// as far as these lie within the range.
proof fn lemma_candidates_prefix(played: Seq<Note>, root: Note, min: u8, max: u8)
    requires
        played.len() > 0,
    ensures
        ({
            let prev = fret_candidates(played.drop_last(), root, min, max);
            let c = fret_candidates(played, root, min, max);
            let n = played.last();
            let d = (n.pitch_class.value() - root.pitch_class.value()) % 12;
            &&& prev.len() <= c.len()
            &&& forall|k: int| 0 <= k < prev.len() ==> #[trigger] c[k] == prev[k]
            &&& min <= d <= max ==> c.contains((root, d as u8, n))
            &&& min <= d + 12 <= max ==> c.contains((root, (d + 12) as u8, n))
        }),
{
    let prev = fret_candidates(played.drop_last(), root, min, max);
    let c = fret_candidates(played, root, min, max);
    let n = played.last();
    let d = (n.pitch_class.value() - root.pitch_class.value()) % 12;
    let a = if min <= d <= max { prev.push((root, d as u8, n)) } else { prev };
    if min <= d <= max {
        assert(a[prev.len() as int] == (root, d as u8, n));
        assert(c[prev.len() as int] == (root, d as u8, n));
    }
    if min <= d + 12 <= max {
        assert(c[a.len() as int] == (root, (d + 12) as u8, n));
    }
}

/// Extending lists by entries contains each list extended by each entry.
proof fn lemma_extend_each_has(acc: Seq<Seq<UkeString>>, xs: Seq<UkeString>, a: int, b: int)
    requires
        0 <= a < acc.len(),
        0 <= b < xs.len(),
    ensures
        extend_each(acc, xs).contains(acc[a].push(xs[b])),
    decreases acc.len(),
{
    let prev = extend_each(acc.drop_last(), xs);
    let tail = xs.map_values(|x: UkeString| acc.last().push(x));
    assert(extend_each(acc, xs) == prev + tail);
    if a < acc.len() - 1 {
        lemma_extend_each_has(acc.drop_last(), xs, a, b);
        assert(acc.drop_last()[a] == acc[a]);
        let k = choose|k: int| 0 <= k < prev.len() && prev[k] == acc[a].push(xs[b]);
        assert((prev + tail)[k] == prev[k]);
    } else {
        assert((prev + tail)[prev.len() + b] == tail[b]);
    }
}

/// Every way to pick one entry from each list is among the combinations.
proof fn lemma_product_has(lists: Seq<Seq<UkeString>>, c: Seq<UkeString>)
    requires
        c.len() == lists.len(),
        forall|k: int| 0 <= k < lists.len() ==> lists[k].contains(#[trigger] c[k]),
    ensures
        product(lists).contains(c),
    decreases lists.len(),
{
    if lists.len() == 0 {
        assert(c =~= Seq::<UkeString>::empty());
        assert(product(lists)[0] == c);
    } else {
        let init = lists.drop_last();
        let ci = c.drop_last();
        assert forall|k: int| 0 <= k < init.len() implies init[k].contains(#[trigger] ci[k]) by {
            assert(init[k] == lists[k] && ci[k] == c[k]);
        }
        lemma_product_has(init, ci);
        let prev = product(init);
        let a = choose|a: int| 0 <= a < prev.len() && prev[a] == ci;
        assert(lists[lists.len() - 1].contains(c[c.len() - 1]));
        let b = choose|b: int| 0 <= b < lists.last().len() && lists.last()[b] == c[c.len() - 1];
        lemma_extend_each_has(prev, lists.last(), a, b);
        assert(ci.push(c.last()) =~= c);
    }
}

/// Inserting a voicing keeps every voicing of the list and adds it.
proof fn lemma_insert_has(s: Seq<Voicing>, x: Voicing)
    ensures
        insert_voicing(s, x).contains(x),
        forall|k: int| 0 <= k < s.len() ==> insert_voicing(s, x).contains(#[trigger] s[k]),
    decreases s.len(),
{
    let r = insert_voicing(s, x);
    if s.len() == 0 {
        assert(r[0] == x);
    } else if x.before(s[0]) {
        assert(r[0] == x);
        assert forall|k: int| 0 <= k < s.len() implies r.contains(#[trigger] s[k]) by {
            assert(r[k + 1] == s[k]);
        }
    } else {
        let t = s.drop_first();
        lemma_insert_has(t, x);
        let rt = insert_voicing(t, x);
        let j = choose|j: int| 0 <= j < rt.len() && rt[j] == x;
        assert(r[j + 1] == x);
        assert forall|k: int| 0 <= k < s.len() implies r.contains(#[trigger] s[k]) by {
            if k == 0 {
                assert(r[0] == s[0]);
            } else {
                assert(t[k - 1] == s[k]);
                assert(rt.contains(t[k - 1]));
                let m = choose|m: int| 0 <= m < rt.len() && rt[m] == t[k - 1];
                assert(r[m + 1] == s[k]);
            }
        }
    }
}

/// Sorting keeps every voicing of the list.
proof fn lemma_sort_has(s: Seq<Voicing>)
    ensures
        forall|k: int| 0 <= k < s.len() ==> sort_voicings(s).contains(#[trigger] s[k]),
    decreases s.len(),
{
    if s.len() > 0 {
        let t = s.drop_last();
        lemma_sort_has(t);
        let st = sort_voicings(t);
        lemma_insert_has(st, s.last());
        assert forall|k: int| 0 <= k < s.len() implies sort_voicings(s).contains(#[trigger] s[k]) by {
            if k < s.len() - 1 {
                assert(t[k] == s[k]);
                let m = choose|m: int| 0 <= m < st.len() && st[m] == t[k];
                assert(insert_voicing(st, s.last()).contains(st[m]));
            }
        }
    }
}

/// Voicings that press the same frets span as many frets.
proof fn lemma_span_by_frets(v: Voicing, w: Voicing)
    requires
        v.fret(0) == w.fret(0),
        v.fret(1) == w.fret(1),
        v.fret(2) == w.fret(2),
        v.fret(3) == w.fret(3),
    ensures
        v.span() == w.span(),
{
    assert(v.max_fret() == w.max_fret());
    assert(v.min_pressed() == w.min_pressed());
}

/// Voicings that press the frets `f` press the same frets and span as many.
proof fn lemma_same_frets(w: Voicing, v: Voicing, f: Seq<FretID>)
    requires
        forall|i: int| 0 <= i < STRING_COUNT ==> (#[trigger] w@[i]).1 == f[i] && v@[i].1 == f[i],
        f.len() == STRING_COUNT,
    ensures
        w.fret_seq() == f,
        w.span() == v.span(),
{
    lemma_voicing_len(w);
    lemma_voicing_len(v);
    assert(w@[0].1 == f[0] && w@[1].1 == f[1] && w@[2].1 == f[2] && w@[3].1 == f[3]);
    assert(w.fret_seq() =~= f);
    lemma_span_by_frets(w, v);
}

/// A voicing whose notes are notes of the chord, sounding as those of a
/// voicing that spells the chord, spells it too.
proof fn lemma_respelled_spells(w: Voicing, v: Voicing, chord: Chord)
    requires
        v.spells(chord),
        forall|i: int|
            0 <= i < STRING_COUNT ==> chord.played().contains(#[trigger] w.note_seq()[i])
                && w.note_seq()[i].pitch_class == v.note_seq()[i].pitch_class,
    ensures
        w.spells(chord),
{
    lemma_voicing_len(w);
    lemma_voicing_len(v);
    let played = chord.played();
    assert forall|i: int| 0 <= i < STRING_COUNT implies #[trigger] pitch_in(w.note_seq()[i], played) by {
        assert(played.contains(w.note_seq()[i]));
    }
    assert forall|j: int| 0 <= j < played.len() implies #[trigger] pitch_in(played[j], w.note_seq()) by {
        assert(pitch_in(played[j], v.note_seq()));
        let i = choose|i: int| 0 <= i < v.note_seq().len() && v.note_seq()[i].pitch_class == played[j].pitch_class;
        assert(w.note_seq()[i].pitch_class == played[j].pitch_class);
    }
}

/// Every way to play the chord is found: frets within the configured range,
/// each in the first two octaves of its string, that played in the tuning
/// sound exactly the notes of the chord and span no more than the configured
/// number of frets, are the frets of one of the chord's voicings (which
/// writes each note as the chord does).
#[verifier::rlimit(50)]
#[verifier::spinoff_prover]
pub proof fn law_voicings_complete(chord: Chord, config: VoicingConfig, p: FretPattern)
    requires
        forall|i: int| 0 <= i < STRING_COUNT ==> config.min_fret <= #[trigger] p@[i] <= config.max_fret,
        forall|i: int| 0 <= i < STRING_COUNT ==> #[trigger] p@[i] < 24,
        voicing_of(p.strings_in(config.tuning)).spells(chord),
        voicing_of(p.strings_in(config.tuning)).span() <= config.max_span,
    ensures
        exists|k: int|
            0 <= k < chord.voicing_seq(config).len() && (#[trigger] chord.voicing_seq(config)[k]).fret_seq()
                == p@,
{
    let t = config.tuning;
    let roots = t.root_seq();
    let nv = voicing_of(p.strings_in(t));
    let played = chord.played();
    let cl = chord.candidate_lists(config);
    crate::note::lemma_tuning_roots_small(t);
    assert(roots.len() == STRING_COUNT);
    lemma_voicing_of(p.strings_in(t));
    lemma_voicing_len(nv);
    // For each string, the note of the chord that its fret sounds.
    let pick = |i: int| choose|m: int| 0 <= m < played.len() && played[m].pitch_class == nv.note_seq()[i].pitch_class;
    let c = Seq::new(4, |i: int| (roots[i], p@[i], played[pick(i)]));
    assert forall|i: int| 0 <= i < STRING_COUNT implies 0 <= #[trigger] pick(i) < played.len()
        && played[pick(i)].pitch_class == nv.note_seq()[i].pitch_class by {
        assert(pitch_in(nv.note_seq()[i], played));
    }
    assert forall|i: int| 0 <= i < STRING_COUNT implies cl[i].contains(#[trigger] c[i]) by {
        assert(pitch_in(nv.note_seq()[i], played));
        let j = choose|j: int| 0 <= j < played.len() && played[j].pitch_class == nv.note_seq()[i].pitch_class;
        let m = pick(i);
        assert(0 <= m < played.len() && played[m].pitch_class == nv.note_seq()[i].pitch_class);
        let r = roots[i];
        let x = p@[i] as int;
        assert(nv.note_seq()[i] == r.up(x as nat));
        crate::pitch_class::lemma_of_value(r.pitch_class);
        crate::pitch_class::lemma_of_value(played[m].pitch_class);
        lemma_value_of(r.pitch_class.value() + x);
        assert(played[m].pitch_class.value() == (r.pitch_class.value() + x) % 12);
        let d = (played[m].pitch_class.value() - r.pitch_class.value()) % 12;
        assert(x == d || x == d + 12) by (nonlinear_arith)
            requires
                0 <= x < 24,
                0 <= r.pitch_class.value() < 12,
                played[m].pitch_class.value() == (r.pitch_class.value() + x) % 12,
                d == (played[m].pitch_class.value() - r.pitch_class.value()) % 12,
        ;
        lemma_candidate_found(played, r, config.min_fret, config.max_fret, m, x);
    }
    lemma_product_has(cl, c);
    let combos = product(cl);
    let q = choose|q: int| 0 <= q < combos.len() && combos[q] == c;
    let mapped = combos.map_values(|cc: Seq<UkeString>| voicing_of(cc));
    let w = mapped[q];
    assert(w == voicing_of(c));
    lemma_voicing_of(c);
    lemma_voicing_len(w);
    assert forall|i: int| 0 <= i < STRING_COUNT implies (#[trigger] w@[i]).1 == p@[i] && nv@[i].1 == p@[i]
        && w.note_seq()[i] == played[pick(i)] && w.note_seq()[i].pitch_class == nv.note_seq()[i].pitch_class by {
        assert(w@[i] == c[i]);
    }
    p.lemma_len();
    lemma_same_frets(w, nv, p@);
    lemma_respelled_spells(w, nv, chord);
    assert(chord.keeps(config, w));
    let keep = |v: Voicing| chord.keeps(config, v);
    mapped.lemma_filter_contains(keep, q);
    let filtered = mapped.filter(keep);
    let f = choose|f: int| 0 <= f < filtered.len() && filtered[f] == w;
    lemma_sort_has(filtered);
    let vs = chord.voicing_seq(config);
    assert(vs == sort_voicings(filtered));
    assert(vs.contains(filtered[f]));
    let k = choose|k: int| 0 <= k < vs.len() && vs[k] == w;
    assert(vs[k].fret_seq() == p@);
}

} // verus!
