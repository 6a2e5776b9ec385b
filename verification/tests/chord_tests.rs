use midi_transposer::chord_processor::{Chord, ChordProcessor};
use midi_transposer::note_info::NoteInfo;
use midi_transposer::params::MidiTransposerParams;

fn default_params() -> MidiTransposerParams {
    MidiTransposerParams::default()
}

fn build(params: &MidiTransposerParams, note: u8) -> Chord {
    ChordProcessor::build_chord(params, &NoteInfo::new(note, 0, 100, 0))
}

#[test]
fn major_triad_from_intervals() {
    // Pitch class C active, transpose 0, intervals {4, 7}, no octave
    // transposition: C4 maps to the major triad {60, 64, 67}.
    let mut params = default_params();
    params.notes[0].intervals[0].interval = 4;
    params.notes[0].intervals[1].interval = 7;
    let chord = build(&params, 60);
    assert_eq!(chord.notes, vec![60, 64, 67]);
    assert_eq!(chord.channel, 0);
}

#[test]
fn octave_transpose_keeps_original_octave() {
    // An octave transposition of +1 keeps the mapped note and adds its
    // copy one octave up: note 60 yields {60, 72}.
    let mut params = default_params();
    params.octave_transpose = 1;
    let chord = build(&params, 60);
    assert_eq!(chord.notes, vec![60, 72]);
}

#[test]
fn no_octave_transpose_keeps_single_note() {
    // Without octave transposition and with all intervals at zero the
    // chord is just the mapped note.
    let params = default_params();
    let chord = build(&params, 60);
    assert_eq!(chord.notes, vec![60]);
}

#[test]
fn inactive_pitch_class_passes_note_through() {
    let mut params = default_params();
    params.notes[60 % 12].active = false;
    params.notes[60 % 12].transpose = 7;
    params.octave_transpose = 2;
    let chord = build(&params, 60);
    assert_eq!(chord.notes, vec![60]);
}

#[test]
fn transpose_shifts_the_chord() {
    let mut params = default_params();
    params.notes[0].transpose = -5;
    params.notes[0].intervals[0].interval = 3;
    let chord = build(&params, 60);
    assert_eq!(chord.notes, vec![55, 58]);
}

#[test]
fn build_chord_is_deterministic() {
    // The same configuration and note always give the identical pitch
    // set, run after run.
    let mut params = default_params();
    params.notes[5].transpose = 3;
    params.notes[5].intervals[0].interval = -7;
    params.notes[5].intervals[1].interval = 12;
    params.octave_transpose = -1;
    for note in [5u8, 17, 65, 127] {
        let first = build(&params, note);
        let second = build(&params, note);
        assert_eq!(first.notes, second.notes);
    }
}

#[test]
fn chord_pitches_stay_in_midi_range() {
    // Extreme transpositions and intervals never produce a pitch outside
    // 0..=127; out-of-range candidates are dropped.
    let mut params = default_params();
    for pc in 0..12 {
        params.notes[pc].transpose = 12;
        params.notes[pc].intervals[0].interval = 12;
        params.notes[pc].intervals[1].interval = -12;
    }
    params.octave_transpose = 4;
    for note in 0..=127u8 {
        let chord = build(&params, note);
        for &p in chord.notes.iter() {
            assert!(p <= 127);
        }
        // Strictly ascending, so free of duplicates.
        for w in chord.notes.windows(2) {
            assert!(w[0] < w[1]);
        }
    }
}

#[test]
fn all_candidates_out_of_range_leave_chord_empty() {
    // Note 0 transposed 12 semitones down, with no octave shift and no
    // intervals in range: every candidate lies below 0 and is dropped.
    let mut params = default_params();
    params.notes[0].transpose = -12;
    params.notes[0].intervals[0].interval = -5;
    let chord = build(&params, 0);
    assert_eq!(chord.notes, Vec::<u8>::new());
}

#[test]
fn duplicate_intervals_collapse() {
    let mut params = default_params();
    params.notes[0].intervals[0].interval = 7;
    params.notes[0].intervals[1].interval = 7;
    params.notes[0].intervals[2].interval = 7;
    let chord = build(&params, 48);
    assert_eq!(chord.notes, vec![48, 55]);
}

#[test]
fn with_transposition_wraps_like_byte_arithmetic() {
    let high = NoteInfo::new(127, 3, 42, 9).with_transposition(12);
    assert_eq!(high.note, 139);
    assert_eq!(high.channel, 3);
    assert_eq!(high.velocity, 42);
    assert_eq!(high.timing, 9);
    let low = NoteInfo::new(0, 0, 0, 0).with_transposition(-12);
    assert_eq!(low.note, 244);
    let plain = NoteInfo::new(60, 0, 0, 0).with_transposition(-12);
    assert_eq!(plain.note, 48);
}
