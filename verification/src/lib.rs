//! Note-transformation and arpeggiation engine of a real-time MIDI effect.
//!
//! One held input note is mapped, through a per-pitch-class configuration,
//! to a chord of output notes; the chord is either played as a block
//! (static harmonization) or swept by an arpeggiator whose triggers are
//! scheduled sample-accurately, free-running or locked to the host's beat
//! grid. All musical time is kept in integers: sample counts for offsets
//! and durations, and 480 ticks to the quarter note for beat positions,
//! which represents every supported division exactly. The host-facing
//! shell converts its floating-point transport values to these units.

pub mod arpeggiator;
pub mod chord_processor;
pub mod midi_processor;
pub mod note_info;
pub mod note_state;
pub mod params;
