use midi_transposer::arpeggiator::{note_division, Arpeggiator};
use midi_transposer::midi_processor::{MidiProcessor, NoteEvent, Transport};
use midi_transposer::params::{ArpParams, MidiTransposerParams};

fn on(note: u8, channel: u8, velocity: u32, timing: u32) -> NoteEvent {
    NoteEvent::NoteOn { note, channel, velocity, timing }
}

fn off(note: u8, channel: u8, velocity: u32, timing: u32) -> NoteEvent {
    NoteEvent::NoteOff { note, channel, velocity, timing }
}

fn stopped_transport() -> Transport {
    Transport { playing: false, tempo: None, pos_beats: None }
}

fn arp_params() -> ArpParams {
    ArpParams { activated: true, synced: false, speed: 1000, rate: 0 }
}

#[test]
fn division_table_values() {
    let expected: [u32; 9] = [1920, 960, 720, 480, 360, 320, 240, 160, 120];
    for (rate, want) in expected.iter().enumerate() {
        assert_eq!(note_division(rate as u8).division, *want);
    }
}

#[test]
fn arpeggio_rotates_through_the_chord() {
    // Arpeggiator on, chord {60, 64, 67}: three triggers play the chord
    // notes in rotation, each stopping the previous one first, and the
    // rotation index cycles 0 -> 1 -> 2 -> 0.
    let mut params = MidiTransposerParams::default();
    params.notes[0].intervals[0].interval = 4;
    params.notes[0].intervals[1].interval = 7;
    params.arp = arp_params();
    let mut engine = MidiProcessor::new();
    engine.arpeggiator.set_samplerate(100);
    // With the arpeggiator on, the press itself sounds nothing.
    engine.process_event(&params, &on(60, 0, 100, 0));
    assert_eq!(engine.get_events().len(), 0);
    assert_eq!(engine.arpeggiator.current_index, 0);
    // Sample rate 100 and full speed give a one-sample step: a 4-sample
    // block fires at offsets 1, 2 and 3.
    engine.process_arp(&params, 4, &stopped_transport());
    assert_eq!(
        engine.get_events().clone(),
        vec![
            on(60, 0, 100, 1),
            off(60, 0, 100, 2),
            on(64, 0, 100, 2),
            off(64, 0, 100, 3),
            on(67, 0, 100, 3),
        ]
    );
    assert_eq!(engine.arpeggiator.current_index, 0);
    // The next block keeps rotating from the start of the chord.
    engine.clear_events();
    engine.process_arp(&params, 4, &stopped_transport());
    let events = engine.get_events().clone();
    assert_eq!(events[0], off(67, 0, 100, 1));
    assert_eq!(events[1], on(60, 0, 100, 1));
}

#[test]
fn releasing_the_last_note_silences_the_arpeggio() {
    let mut params = MidiTransposerParams::default();
    params.arp = arp_params();
    let mut engine = MidiProcessor::new();
    engine.arpeggiator.set_samplerate(100);
    engine.process_event(&params, &on(60, 0, 100, 0));
    engine.process_arp(&params, 4, &stopped_transport());
    engine.clear_events();
    // The chord is {60} alone; 60 is sounding. Releasing the held note
    // emits the pending stop for the sounding arpeggio note.
    engine.process_event(&params, &off(60, 0, 9, 2));
    assert_eq!(engine.get_events().clone(), vec![off(60, 0, 9, 2)]);
    assert_eq!(engine.arpeggiator.current_index, 0);
    assert!(!engine.arpeggiator.note_info.is_active());
    // Nothing is held: a further block fires, but with an empty chord no
    // note starts.
    engine.clear_events();
    engine.process_arp(&params, 4, &stopped_transport());
    assert_eq!(engine.get_events().len(), 0);
}

#[test]
fn empty_chord_trigger_stops_the_sounding_note_exactly_once() {
    // A note is sounding when a press whose chord builds empty takes
    // over (every candidate pitch falls out of range). The next trigger
    // stops the sounding note, starts nothing and leaves the sounding
    // slot unset; later triggers must not stop it again.
    let mut params = MidiTransposerParams::default();
    params.notes[0].transpose = -12;
    params.arp = arp_params();
    let mut engine = MidiProcessor::new();
    engine.arpeggiator.set_samplerate(100);
    engine.process_event(&params, &on(62, 0, 100, 0));
    engine.process_arp(&params, 2, &stopped_transport());
    assert_eq!(engine.get_events().clone(), vec![on(62, 0, 100, 1)]);
    engine.clear_events();
    // Pitch 0 transposed twelve semitones down: every candidate lies
    // below the MIDI range, so the chord is empty.
    engine.process_event(&params, &on(0, 0, 50, 0));
    assert_eq!(engine.get_events().len(), 0);
    engine.process_arp(&params, 2, &stopped_transport());
    assert_eq!(engine.get_events().clone(), vec![off(62, 0, 100, 1)]);
    assert!(!engine.arpeggiator.note_info.is_active());
    engine.clear_events();
    engine.process_arp(&params, 2, &stopped_transport());
    assert_eq!(engine.get_events().len(), 0);
}

#[test]
fn new_press_restarts_rotation_but_keeps_clock_phase() {
    let mut params = MidiTransposerParams::default();
    params.notes[0].intervals[0].interval = 4;
    params.arp = arp_params();
    let mut engine = MidiProcessor::new();
    engine.arpeggiator.set_samplerate(800);
    // Step duration: 800 * 20 / 2000 = 8 samples; a 4-sample block fires
    // at most once.
    engine.process_event(&params, &on(60, 0, 100, 0));
    engine.process_arp(&params, 4, &stopped_transport());
    assert_eq!(engine.get_events().len(), 0);
    let phase_before = engine.arpeggiator.time;
    assert_eq!(phase_before, 4);
    // A new press resets the rotation index but not the clock phase.
    engine.process_event(&params, &on(62, 0, 100, 1));
    assert_eq!(engine.arpeggiator.current_index, 0);
    assert_eq!(engine.arpeggiator.time, phase_before);
}

#[test]
fn free_mode_trigger_count_matches_duration() {
    // Sample rate 48000 at full speed gives a 480-sample step. Over 8
    // blocks of 120 samples — 960 samples — the clock fires exactly
    // floor(960 / 480) = 2 times, each at the block's last sample.
    let mut arp = Arpeggiator::new();
    arp.set_samplerate(48000);
    let params = arp_params();
    let mut timings: Vec<u32> = Vec::new();
    let mut fired_blocks: Vec<usize> = Vec::new();
    for block in 0..8 {
        arp.set_process_info(None, 120, &params);
        let before = timings.len();
        arp.arpeggiate_free(1000, &mut timings);
        if timings.len() > before {
            fired_blocks.push(block);
        }
    }
    assert_eq!(timings, vec![119, 119]);
    assert_eq!(fired_blocks, vec![3, 7]);
}

#[test]
fn free_mode_block_longer_than_duration_fires_each_step() {
    // A 10-sample block with a 3-sample step fires at offsets 3, 6, 9,
    // then wraps the accumulated time.
    let mut arp = Arpeggiator::new();
    arp.set_samplerate(300);
    let params = arp_params();
    arp.set_process_info(None, 10, &params);
    let mut timings: Vec<u32> = Vec::new();
    arp.arpeggiate_free(1000, &mut timings);
    assert_eq!(timings, vec![3, 6, 9]);
    assert_eq!(arp.time, 2);
}

#[test]
fn free_mode_with_synced_flag_takes_the_step_from_the_tempo() {
    // Sync requested but the transport is stopped: the clock free-runs,
    // yet the step length comes from the tempo and division. 120 BPM at
    // sample rate 960 and a quarter-note division give a 480-sample step;
    // over eight 64-sample blocks the one crossing lands 32 samples into
    // the eighth block.
    let mut arp = Arpeggiator::new();
    arp.set_samplerate(960);
    let params = ArpParams { activated: true, synced: true, speed: 1000, rate: 3 };
    let mut timings: Vec<u32> = Vec::new();
    for _ in 0..8 {
        arp.set_process_info(Some(120_000), 64, &params);
        arp.arpeggiate_free(1000, &mut timings);
    }
    assert_eq!(timings, vec![32]);
}

#[test]
fn sync_mode_triggers_agree_across_block_sizes() {
    // Tempo 120 BPM at sample rate 960 gives 480 samples a beat — one
    // sample a tick, so offsets are exact. Quarter-note division: the
    // grid is every 480 samples. Two runs over the same 2560 samples,
    // one with 64-sample blocks and one with 512-sample blocks, fire at
    // identical absolute positions on that grid.
    let quarter = ArpParams { activated: true, synced: true, speed: 1000, rate: 3 };
    let mut positions_small: Vec<u64> = Vec::new();
    let mut arp_small = Arpeggiator::new();
    arp_small.set_samplerate(960);
    for block in 0..40u64 {
        arp_small.set_process_info(Some(120_000), 64, &quarter);
        let mut t: Vec<u32> = Vec::new();
        arp_small.arpeggiate_sync(block * 64, &mut t);
        for o in t {
            positions_small.push(block * 64 + o as u64);
        }
    }
    let mut positions_large: Vec<u64> = Vec::new();
    let mut arp_large = Arpeggiator::new();
    arp_large.set_samplerate(960);
    for block in 0..5u64 {
        arp_large.set_process_info(Some(120_000), 512, &quarter);
        let mut t: Vec<u32> = Vec::new();
        arp_large.arpeggiate_sync(block * 512, &mut t);
        for o in t {
            positions_large.push(block * 512 + o as u64);
        }
    }
    assert_eq!(positions_small, vec![480, 960, 1440, 1920, 2400]);
    assert_eq!(positions_large, positions_small);
}

#[test]
fn sync_mode_locks_to_the_beat_grid_at_audio_rates() {
    // Tempo 120 BPM at 44100: 22050 samples a beat, 45.9375 samples a
    // tick. The host position is quantized to ticks, so triggers land on
    // the quarter-note grid to within one tick's worth of samples, and
    // they do not drift over many beats.
    let quarter = ArpParams { activated: true, synced: true, speed: 1000, rate: 3 };
    let samples_per_beat = 22050u64;
    let tick_tolerance = samples_per_beat / 480 + 1;
    let mut positions: Vec<u64> = Vec::new();
    let mut arp = Arpeggiator::new();
    arp.set_samplerate(44100);
    let blocks = 2000u64;
    let block_size = 512u64;
    for block in 0..blocks {
        let start = block * block_size;
        let bp = (start as f64 * 480.0 / samples_per_beat as f64) as u64;
        arp.set_process_info(Some(120_000), block_size as u32, &quarter);
        let mut t: Vec<u32> = Vec::new();
        arp.arpeggiate_sync(bp, &mut t);
        for o in t {
            positions.push(start + o as u64);
        }
    }
    // Nearly every beat of the span gets exactly one trigger.
    let beats = blocks * block_size / samples_per_beat;
    assert!(positions.len() as u64 >= beats - 1);
    assert!(positions.len() as u64 <= beats + 1);
    for (i, pos) in positions.iter().enumerate() {
        let grid = (i as u64 + 1) * samples_per_beat;
        let distance = if *pos > grid { *pos - grid } else { grid - *pos };
        assert!(distance <= tick_tolerance);
    }
}

#[test]
fn division_change_restarts_the_grid_search() {
    let mut arp = Arpeggiator::new();
    arp.set_samplerate(960);
    let quarter = ArpParams { activated: true, synced: true, speed: 1000, rate: 3 };
    arp.set_process_info(Some(120_000), 64, &quarter);
    let mut t: Vec<u32> = Vec::new();
    arp.arpeggiate_sync(0, &mut t);
    let pending = arp.next_beat_position;
    assert_eq!(pending, 480);
    // Same division: the pending grid point survives.
    arp.set_process_info(Some(120_000), 64, &quarter);
    assert_eq!(arp.next_beat_position, pending);
    // New division: the search starts over.
    let eighth = ArpParams { rate: 6, ..quarter };
    arp.set_process_info(Some(120_000), 64, &eighth);
    assert_eq!(arp.next_beat_position, 0);
}

#[test]
fn degenerate_tempo_is_treated_as_absent() {
    let mut arp = Arpeggiator::new();
    arp.set_samplerate(48000);
    let params = arp_params();
    // Below 1 BPM (1000 milli-BPM) the host tempo is not believed.
    arp.set_process_info(Some(500), 64, &params);
    assert_eq!(arp.tempo, None);
    arp.set_process_info(Some(120_000), 64, &params);
    assert_eq!(arp.tempo, Some(120_000));
}

#[test]
fn toggling_the_arpeggiator_off_stops_its_note_and_restarts_the_chord() {
    let mut params = MidiTransposerParams::default();
    params.notes[0].intervals[0].interval = 4;
    params.arp = arp_params();
    let mut engine = MidiProcessor::new();
    engine.arpeggiator.set_samplerate(100);
    engine.process_event(&params, &on(60, 0, 100, 7));
    engine.process_arp(&params, 4, &stopped_transport());
    engine.clear_events();
    // The parameter flipped off; the next block carries the change
    // signal: the sounding arpeggio note stops before the chord restarts.
    params.arp.activated = false;
    let no_events: Vec<NoteEvent> = Vec::new();
    engine.process_block(&params, &no_events, 4, &stopped_transport(), true);
    assert_eq!(
        engine.get_events().clone(),
        vec![off(60, 0, 0, 0), on(60, 0, 100, 0), on(64, 0, 100, 0)]
    );
    assert_eq!(engine.arpeggiator.time, 0);
    assert!(!engine.arpeggiator.note_info.is_active());
}

#[test]
fn toggling_the_arpeggiator_on_stops_the_sounding_chord() {
    let mut params = MidiTransposerParams::default();
    let mut engine = MidiProcessor::new();
    engine.arpeggiator.set_samplerate(100);
    engine.process_event(&params, &on(60, 0, 100, 0));
    engine.clear_events();
    params.arp.activated = true;
    let no_events: Vec<NoteEvent> = Vec::new();
    engine.process_block(&params, &no_events, 4, &stopped_transport(), true);
    // The chord's stop comes first; then the arpeggiator takes over and
    // fires within the block.
    let events = engine.get_events().clone();
    assert_eq!(events[0], off(60, 0, 0, 0));
    assert!(matches!(events[1], NoteEvent::NoteOn { note: 60, .. }));
}

#[test]
fn process_block_handles_events_then_arpeggiates() {
    let mut params = MidiTransposerParams::default();
    params.arp = arp_params();
    let mut engine = MidiProcessor::new();
    engine.arpeggiator.set_samplerate(100);
    let events = vec![on(60, 0, 100, 0)];
    engine.process_block(&params, &events, 4, &stopped_transport(), false);
    // The press sounds nothing (arpeggiator mode); the clock then fires
    // inside the block.
    let out = engine.get_events().clone();
    assert_eq!(out[0], on(60, 0, 100, 1));
}
