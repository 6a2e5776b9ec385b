use crate::note_info::NoteInfo;
use crate::params::MidiTransposerParams;
use vstd::prelude::*;

verus! {

/// The set of output pitches answering one held input note, listed in
/// ascending order, each sounding on the held note's output channel.
#[derive(Clone, Debug)]
pub struct Chord {
    pub notes: Vec<u8>,
    pub channel: u8,
}

/// The pitch class of a note: 0 for C up to 11 for B.
pub open spec fn pitch_class(note: u8) -> int {
    note as int % 12
}

/// The held pitch after the per-pitch-class transposition, before any
/// range check.
pub open spec fn mapped_pitch(params: MidiTransposerParams, note: NoteInfo) -> int {
    note.note + params.notes[pitch_class(note.note)].transpose
}

/// The transposed pitch shifted by the global octave transposition: the
/// base every configured interval is added to.
pub open spec fn octave_pitch(params: MidiTransposerParams, note: NoteInfo) -> int {
    mapped_pitch(params, note) + 12 * params.octave_transpose
}

/// Whether pitch `p` belongs to the chord built for `note`. With the
/// note's pitch class inactive the held note passes through alone.
/// Otherwise the chord holds the octave-shifted transposed pitch (the
/// always-present interval 0), the transposed pitch at its original
/// octave when an octave transposition is in force, and every configured
/// interval offset from the octave-shifted pitch; computed pitches
/// outside 0..=127 are dropped.
pub open spec fn chord_contains(params: MidiTransposerParams, note: NoteInfo, p: int) -> bool {
    let np = params.notes[pitch_class(note.note)];
    if !np.active {
        p == note.note as int
    } else {
        let m = mapped_pitch(params, note);
        let o = octave_pitch(params, note);
        0 <= p <= 127 && {
            ||| (params.octave_transpose != 0 && p == m)
            ||| p == o
            ||| exists|k: int|
                0 <= k < np.intervals.len() && p == o + (#[trigger] np.intervals[k]).interval
        }
    }
}

/// The chord pitches below bound `n`, in ascending order.
pub open spec fn chord_seq_below(params: MidiTransposerParams, note: NoteInfo, n: nat) -> Seq<u8>
    decreases n,
{
    if n == 0 {
        Seq::empty()
    } else {
        chord_seq_below(params, note, (n - 1) as nat) + if chord_contains(
            params,
            note,
            n - 1,
        ) {
            seq![(n - 1) as u8]
        } else {
            Seq::empty()
        }
    }
}

/// The full chord for `note` under `params`: every pitch in 0..=127 that
/// `chord_contains` admits, in ascending order. `build_chord` returns
/// exactly this sequence, so two runs on the same inputs agree.
pub open spec fn chord_seq(params: MidiTransposerParams, note: NoteInfo) -> Seq<u8> {
    chord_seq_below(params, note, 128)
}

/// Every element of `chord_seq_below(params, note, n)` satisfies
/// `chord_contains` and lies below `n`; the sequence is strictly
/// ascending; and it is complete: each pitch below `n` that
/// `chord_contains` admits occurs in it.
proof fn lemma_chord_seq_below_props(params: MidiTransposerParams, note: NoteInfo, n: nat)
    ensures
        forall|i: int|
            0 <= i < chord_seq_below(params, note, n).len() ==> (#[trigger] chord_seq_below(
                params,
                note,
                n,
            )[i]) < n && chord_contains(params, note, chord_seq_below(params, note, n)[i] as int),
        forall|i: int, j: int|
            0 <= i < j < chord_seq_below(params, note, n).len() ==> chord_seq_below(
                params,
                note,
                n,
            )[i] < chord_seq_below(params, note, n)[j],
        forall|q: int|
            0 <= q < n && chord_contains(params, note, q) ==> chord_seq_below(
                params,
                note,
                n,
            ).contains(q as u8),
    decreases n,
{
    if n > 0 {
        lemma_chord_seq_below_props(params, note, (n - 1) as nat);
        let prev = chord_seq_below(params, note, (n - 1) as nat);
        let cur = chord_seq_below(params, note, n);
        assert(forall|q: int|
            0 <= q < n && chord_contains(params, note, q) ==> cur.contains(q as u8)) by {
            assert forall|q: int| 0 <= q < n && chord_contains(params, note, q) implies cur.contains(
                q as u8,
            ) by {
                if q < n - 1 {
                    assert(prev.contains(q as u8));
                    let w = choose|w: int| 0 <= w < prev.len() && prev[w] == q as u8;
                    assert(cur[w] == q as u8);
                } else {
                    assert(cur[cur.len() - 1] == q as u8);
                }
            }
        }
    }
}

/// Every pitch of a built chord lies in the MIDI range 0..=127, and the
/// pitches are strictly ascending, so no pitch occurs twice: the chord is
/// an ordered set.
pub proof fn lemma_chord_range_and_distinct(params: MidiTransposerParams, note: NoteInfo)
    ensures
        forall|i: int|
            0 <= i < chord_seq(params, note).len() ==> (#[trigger] chord_seq(params, note)[i])
                <= 127,
        forall|i: int, j: int|
            0 <= i < j < chord_seq(params, note).len() ==> chord_seq(params, note)[i] < chord_seq(
                params,
                note,
            )[j],
{
    lemma_chord_seq_below_props(params, note, 128);
}

/// A pitch occurs in the built chord exactly when `chord_contains`
/// admits it.
pub proof fn lemma_chord_membership(params: MidiTransposerParams, note: NoteInfo, p: u8)
    requires
        note.note <= 127,
    ensures
        chord_seq(params, note).contains(p) == chord_contains(params, note, p as int),
{
    lemma_chord_seq_below_props(params, note, 128);
    if p >= 128 {
        assert(!chord_contains(params, note, p as int));
    }
}

/// The builder of chords. It holds no state: the chord is a pure function
/// of the parameters and the held note.
pub struct ChordProcessor {}

impl ChordProcessor {
    /// Whether pitch `p` belongs to the chord for `note_info`.
    fn contains_pitch(params: &MidiTransposerParams, note_info: &NoteInfo, p: u8) -> (r: bool)
        requires
            params.wf(),
            note_info.note <= 127,
            p <= 127,
        ensures
            r == chord_contains(*params, *note_info, p as int),
    {
        let pc = (note_info.note % 12) as usize;
        let np = &params.notes[pc];
        if !np.active {
            return p == note_info.note;
        }
        let m: i32 = note_info.note as i32 + np.transpose as i32;
        let o: i32 = m + 12 * params.octave_transpose as i32;
        if params.octave_transpose != 0 && p as i32 == m {
            return true;
        }
        if p as i32 == o {
            return true;
        }
        let mut k: usize = 0;
        while k < np.intervals.len()
            invariant
                params.wf(),
                note_info.note <= 127,
                p <= 127,
                np == params.notes[pc as int],
                pc == pitch_class(note_info.note),
                np.active,
                m == mapped_pitch(*params, *note_info),
                o == octave_pitch(*params, *note_info),
                k <= np.intervals.len(),
                forall|w: int|
                    0 <= w < k ==> p as int != o + (#[trigger] np.intervals[w]).interval,
            decreases np.intervals.len() - k,
        {
            if o + np.intervals[k].interval as i32 == p as i32 {
                proof {
                    let w = k as int;
                    assert(p as int == octave_pitch(*params, *note_info) + (#[trigger] np.intervals[w]).interval);
                }
                return true;
            }
            k += 1;
        }
        false
    }

    /// Builds the chord answering `note_info` under the current
    /// parameters. The result is exactly `chord_seq(params, note_info)`,
    /// in ascending pitch order, on the held note's channel: the same
    /// inputs always give the same chord.
    pub fn build_chord(params: &MidiTransposerParams, note_info: &NoteInfo) -> (r: Chord)
        requires
            params.wf(),
            note_info.note <= 127,
        ensures
            r.notes@ == chord_seq(*params, *note_info),
            r.channel == note_info.channel,
    {
        let mut notes: Vec<u8> = Vec::new();
        let mut p: usize = 0;
        while p < 128
            invariant
                params.wf(),
                note_info.note <= 127,
                p <= 128,
                notes@ == chord_seq_below(*params, *note_info, p as nat),
            decreases 128 - p,
        {
            if Self::contains_pitch(params, note_info, p as u8) {
                notes.push(p as u8);
            }
            proof {
                assert(chord_seq_below(*params, *note_info, (p + 1) as nat) =~= chord_seq_below(
                    *params,
                    *note_info,
                    p as nat,
                ) + if chord_contains(*params, *note_info, p as int) {
                    seq![p as u8]
                } else {
                    Seq::empty()
                });
            }
            p += 1;
        }
        Chord { notes, channel: note_info.channel }
    }
}

} // verus!
