use crate::note_info::wrapped_pitch;
use vstd::prelude::*;

verus! {

/// A note slot that may be empty: the arpeggiator's sounding note and the
/// engine's "current held note" both start out silent. `note` is `None`
/// while the slot is inactive.
#[derive(Clone, Copy, Debug)]
pub struct NoteState {
    pub note: Option<u8>,
    pub channel: u8,
    pub velocity: u32,
    pub timing: u32,
}

/// The silent slot: no pitch, channel 0, velocity 0, offset 0.
pub open spec fn inactive_note_state() -> NoteState {
    NoteState { note: None, channel: 0, velocity: 0, timing: 0 }
}

impl NoteState {
    pub fn new(note: u8, channel: u8, velocity: u32, timing: u32) -> (r: Self)
        ensures
            r == (NoteState { note: Some(note), channel, velocity, timing }),
    {
        Self { note: Some(note), channel, velocity, timing }
    }

    /// Shifts the held pitch, if any, by a signed number of semitones,
    /// wrapping as byte arithmetic does.
    pub fn transposed(&mut self, transposition: i8)
        ensures
            *final(self) == (NoteState {
                note: match old(self).note {
                    Some(n) => Some(wrapped_pitch(n, transposition)),
                    None => None,
                },
                ..*old(self)
            }),
    {
        if let Some(n) = self.note {
            let shifted: i32 = n as i32 + transposition as i32 + 256;
            let wrapped: i32 = shifted % 256;
            proof {
                assert(wrapped == (n as int + transposition as int) % 256) by {
                    vstd::arithmetic::div_mod::lemma_mod_sub_multiples_vanish(
                        n as int + transposition as int + 256,
                        256,
                    );
                }
            }
            self.note = Some(wrapped as u8);
        }
    }

    /// Returns the slot to silence.
    pub fn reset(&mut self)
        ensures
            *final(self) == inactive_note_state(),
    {
        self.note = None;
        self.channel = 0;
        self.velocity = 0;
        self.timing = 0;
    }

    /// Whether a note is held in this slot.
    pub fn is_active(&self) -> (r: bool)
        ensures
            r == self.note is Some,
    {
        self.note.is_some()
    }
}

impl Default for NoteState {
    fn default() -> (r: Self)
        ensures
            r == inactive_note_state(),
    {
        Self { note: None, channel: 0, velocity: 0, timing: 0 }
    }
}

} // verus!
