use midi_transposer::note_state::NoteState;
use midi_transposer::params::{MidiTransposerParams, NB_INTERVALS};

#[test]
fn note_state_tracks_activity() {
    let mut state = NoteState::new(72, 3, 55, 128);
    assert!(state.is_active());
    assert_eq!(state.note, Some(72));
    assert_eq!(state.channel, 3);
    assert_eq!(state.velocity, 55);
    assert_eq!(state.timing, 128);
    state.reset();
    assert!(!state.is_active());
    assert_eq!(state.note, None);
    assert_eq!(state.channel, 0);
    assert_eq!(state.velocity, 0);
    assert_eq!(state.timing, 0);
}

#[test]
fn note_state_default_is_inactive() {
    let state = NoteState::default();
    assert!(!state.is_active());
    assert_eq!(state.note, None);
}

#[test]
fn note_state_transposition_wraps_and_skips_empty_slots() {
    let mut state = NoteState::new(120, 0, 1, 2);
    state.transposed(10);
    assert_eq!(state.note, Some(130));
    let mut down = NoteState::new(4, 0, 1, 2);
    down.transposed(-9);
    assert_eq!(down.note, Some(251));
    let mut empty = NoteState::default();
    empty.transposed(5);
    assert_eq!(empty.note, None);
}

#[test]
fn parameter_defaults_match_the_documented_start_values() {
    let params = MidiTransposerParams::default();
    assert_eq!(params.in_channel, 1);
    assert_eq!(params.out_channel, 1);
    assert_eq!(params.octave_transpose, 0);
    assert!(!params.arp.activated);
    assert!(!params.arp.synced);
    assert_eq!(params.arp.speed, 1000);
    assert_eq!(params.arp.rate, 0);
    assert_eq!(params.notes.len(), 12);
    for note in params.notes.iter() {
        assert!(note.active);
        assert_eq!(note.transpose, 0);
        assert_eq!(note.intervals.len(), NB_INTERVALS);
        for interval in note.intervals.iter() {
            assert_eq!(interval.interval, 0);
        }
    }
}
