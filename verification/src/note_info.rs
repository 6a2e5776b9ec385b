use vstd::prelude::*;

verus! {

/// One note message translated to its output channel: pitch, channel, the
/// host's velocity encoding (carried through untouched) and the sample
/// offset inside the current processing block.
#[derive(Clone, Copy, Debug, PartialEq, Eq, Structural)]
pub struct NoteInfo {
    pub note: u8,
    pub channel: u8,
    pub velocity: u32,
    pub timing: u32,
}

/// Pitch arithmetic on a raw MIDI data byte wraps modulo 256.
pub open spec fn wrapped_pitch(note: u8, transposition: i8) -> u8 {
    (((note as int) + (transposition as int)) % 256) as u8
}

impl NoteInfo {
    pub fn new(note: u8, channel: u8, velocity: u32, timing: u32) -> (r: Self)
        ensures
            r == (NoteInfo { note, channel, velocity, timing }),
    {
        Self { note, channel, velocity, timing }
    }

    /// The same note shifted by a signed number of semitones, wrapping as
    /// byte arithmetic does; out-of-range pitches are discarded later, by
    /// the chord builder.
    pub fn with_transposition(&self, transposition: i8) -> (r: Self)
        ensures
            r == (NoteInfo { note: wrapped_pitch(self.note, transposition), ..*self }),
    {
        let shifted: i32 = self.note as i32 + transposition as i32 + 256;
        let wrapped: i32 = shifted % 256;
        proof {
            assert(wrapped == (self.note as int + transposition as int) % 256) by {
                vstd::arithmetic::div_mod::lemma_mod_sub_multiples_vanish(
                    self.note as int + transposition as int + 256,
                    256,
                );
            }
        }
        Self {
            note: wrapped as u8,
            channel: self.channel,
            velocity: self.velocity,
            timing: self.timing,
        }
    }
}

} // verus!
