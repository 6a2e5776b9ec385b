use midi_transposer::midi_processor::{MidiProcessor, NoteEvent};
use midi_transposer::params::MidiTransposerParams;

fn on(note: u8, channel: u8, velocity: u32, timing: u32) -> NoteEvent {
    NoteEvent::NoteOn { note, channel, velocity, timing }
}

fn off(note: u8, channel: u8, velocity: u32, timing: u32) -> NoteEvent {
    NoteEvent::NoteOff { note, channel, velocity, timing }
}

#[test]
fn single_press_plays_its_chord() {
    let params = MidiTransposerParams::default();
    let mut engine = MidiProcessor::new();
    engine.process_event(&params, &on(60, 0, 100, 5));
    assert_eq!(engine.get_events().clone(), vec![on(60, 0, 100, 5)]);
}

#[test]
fn monophonic_priority_releasing_latest_returns_to_previous() {
    // Press A then B, release B: A's chord is active again (replayed with
    // A's stored velocity and offset). Press order B's press first stops
    // A's chord.
    let params = MidiTransposerParams::default();
    let mut engine = MidiProcessor::new();
    engine.process_event(&params, &on(60, 0, 100, 5));
    engine.process_event(&params, &on(64, 0, 90, 10));
    engine.process_event(&params, &off(64, 0, 7, 20));
    assert_eq!(
        engine.get_events().clone(),
        vec![
            on(60, 0, 100, 5),
            off(60, 0, 90, 10),
            on(64, 0, 90, 10),
            off(64, 0, 7, 20),
            on(60, 0, 100, 5),
        ]
    );
}

#[test]
fn monophonic_priority_releasing_earlier_changes_nothing_sounding() {
    // Press A then B, release A: B's chord keeps sounding, untouched.
    let params = MidiTransposerParams::default();
    let mut engine = MidiProcessor::new();
    engine.process_event(&params, &on(60, 0, 100, 5));
    engine.process_event(&params, &on(64, 0, 90, 10));
    let before = engine.get_events().clone();
    engine.process_event(&params, &off(60, 0, 7, 20));
    assert_eq!(engine.get_events().clone(), before);
    // B is still the current note: releasing it stops its chord.
    engine.process_event(&params, &off(64, 0, 3, 30));
    let mut expected = before;
    expected.push(off(64, 0, 3, 30));
    assert_eq!(engine.get_events().clone(), expected);
}

#[test]
fn releasing_everything_stops_exactly_once() {
    // However the held notes are released, the final release stops the
    // chord once; a further release is a silent no-op.
    let params = MidiTransposerParams::default();
    let mut engine = MidiProcessor::new();
    engine.process_event(&params, &on(60, 0, 100, 0));
    engine.process_event(&params, &on(64, 0, 100, 1));
    engine.process_event(&params, &off(64, 0, 0, 2));
    engine.process_event(&params, &off(60, 0, 0, 3));
    let after_all_released = engine.get_events().clone();
    let stops = after_all_released
        .iter()
        .filter(|e| matches!(e, NoteEvent::NoteOff { note: 60, timing: 3, .. }))
        .count();
    assert_eq!(stops, 1);
    // Releasing again: nothing happens.
    engine.process_event(&params, &off(60, 0, 0, 4));
    engine.process_event(&params, &off(64, 0, 0, 5));
    assert_eq!(engine.get_events().clone(), after_all_released);
}

#[test]
fn duplicate_presses_of_one_pitch_collapse_on_release() {
    let params = MidiTransposerParams::default();
    let mut engine = MidiProcessor::new();
    engine.process_event(&params, &on(60, 0, 100, 0));
    engine.process_event(&params, &on(60, 0, 100, 1));
    engine.process_event(&params, &off(60, 0, 0, 2));
    // One release removes every record of the pitch: the chord stops.
    assert_eq!(
        engine.get_events().clone(),
        vec![on(60, 0, 100, 0), on(60, 0, 100, 1), off(60, 0, 0, 2)]
    );
    // The stack is empty: another press starts afresh without stopping
    // anything first.
    engine.clear_events();
    engine.process_event(&params, &on(62, 0, 50, 3));
    assert_eq!(engine.get_events().clone(), vec![on(62, 0, 50, 3)]);
}

#[test]
fn stop_of_previous_chord_precedes_start_of_next() {
    let mut params = MidiTransposerParams::default();
    params.notes[0].intervals[0].interval = 4;
    params.notes[0].intervals[1].interval = 7;
    let mut engine = MidiProcessor::new();
    engine.process_event(&params, &on(60, 0, 100, 0));
    engine.process_event(&params, &on(61, 0, 80, 9));
    assert_eq!(
        engine.get_events().clone(),
        vec![
            on(60, 0, 100, 0),
            on(64, 0, 100, 0),
            on(67, 0, 100, 0),
            off(60, 0, 80, 9),
            off(64, 0, 80, 9),
            off(67, 0, 80, 9),
            on(61, 0, 80, 9),
        ]
    );
}

#[test]
fn input_channel_filter_passes_foreign_events_through() {
    let mut params = MidiTransposerParams::default();
    params.in_channel = 2;
    let mut engine = MidiProcessor::new();
    // Channel 0 is not channel 2 - 1: the event passes through untouched
    // and changes nothing.
    engine.process_event(&params, &on(60, 0, 100, 0));
    assert_eq!(engine.get_events().clone(), vec![on(60, 0, 100, 0)]);
    // Channel 1 matches and is processed onto the output channel.
    engine.clear_events();
    engine.process_event(&params, &on(60, 1, 100, 0));
    assert_eq!(engine.get_events().clone(), vec![on(60, 0, 100, 0)]);
}

#[test]
fn output_channel_remaps_processed_events() {
    let mut params = MidiTransposerParams::default();
    params.in_channel = 0;
    params.out_channel = 5;
    let mut engine = MidiProcessor::new();
    engine.process_event(&params, &on(60, 2, 100, 0));
    assert_eq!(engine.get_events().clone(), vec![on(60, 4, 100, 0)]);
}

#[test]
fn output_channel_zero_passes_input_channel_on() {
    let mut params = MidiTransposerParams::default();
    params.in_channel = 0;
    params.out_channel = 0;
    let mut engine = MidiProcessor::new();
    engine.process_event(&params, &on(60, 9, 100, 0));
    assert_eq!(engine.get_events().clone(), vec![on(60, 9, 100, 0)]);
}

#[test]
fn clear_events_keeps_musical_state() {
    let params = MidiTransposerParams::default();
    let mut engine = MidiProcessor::new();
    engine.process_event(&params, &on(60, 0, 100, 0));
    engine.clear_events();
    assert_eq!(engine.get_events().len(), 0);
    // The note is still held: releasing it stops its chord.
    engine.process_event(&params, &off(60, 0, 0, 1));
    assert_eq!(engine.get_events().clone(), vec![off(60, 0, 0, 1)]);
}
