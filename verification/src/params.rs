use vstd::prelude::*;

verus! {

/// How many interval slots each pitch class offers.
pub const NB_INTERVALS: usize = 6;

/// One interval slider of a pitch class: a signed offset in semitones
/// added on top of the transposed note, between -12 and 12.
#[derive(Clone, Copy, Debug)]
pub struct IntervalParam {
    pub interval: i8,
}

impl IntervalParam {
    pub open spec fn wf(self) -> bool {
        -12 <= self.interval <= 12
    }
}

/// The panel of one pitch class: whether the mapping is active, a
/// transposition in semitones, and the interval sliders.
#[derive(Clone, Debug)]
pub struct NoteParam {
    pub active: bool,
    pub transpose: i8,
    pub intervals: Vec<IntervalParam>,
}

impl NoteParam {
    pub open spec fn wf(self) -> bool {
        &&& -12 <= self.transpose <= 12
        &&& self.intervals.len() == NB_INTERVALS
        &&& forall|k: int| 0 <= k < self.intervals.len() ==> (#[trigger] self.intervals[k]).wf()
    }
}

/// The arpeggiator's own settings: on/off, host sync, a speed for free
/// mode in thousandths (100 to 1000 standing for 0.1 to 1.0), and an
/// index into the fixed table of beat divisions.
#[derive(Clone, Copy, Debug)]
pub struct ArpParams {
    pub activated: bool,
    pub synced: bool,
    pub speed: u16,
    pub rate: u8,
}

impl ArpParams {
    pub open spec fn wf(self) -> bool {
        &&& 100 <= self.speed <= 1000
        &&& self.rate <= 8
    }
}

/// The whole parameter set the engine reads: channel filters, the global
/// octave transposition, the arpeggiator block and the twelve pitch-class
/// panels. Channel parameters are 0 for "all"/"passthrough" and 1 to 16
/// for a specific channel.
#[derive(Clone, Debug)]
pub struct MidiTransposerParams {
    pub in_channel: u8,
    pub out_channel: u8,
    pub octave_transpose: i8,
    pub arp: ArpParams,
    pub notes: Vec<NoteParam>,
}

impl MidiTransposerParams {
    pub open spec fn wf(self) -> bool {
        &&& self.in_channel <= 16
        &&& self.out_channel <= 16
        &&& -1 <= self.octave_transpose <= 4
        &&& self.arp.wf()
        &&& self.notes.len() == 12
        &&& forall|k: int| 0 <= k < self.notes.len() ==> (#[trigger] self.notes[k]).wf()
    }
}

impl Default for MidiTransposerParams {
    /// The values the parameters start from: both channel filters on
    /// channel 1, no octave transposition, the arpeggiator off, its speed
    /// at the maximum and its rate on the whole note, and every pitch
    /// class active with no transposition and all intervals at zero.
    fn default() -> (r: Self)
        ensures
            r.wf(),
            r.in_channel == 1,
            r.out_channel == 1,
            r.octave_transpose == 0,
            r.arp == (ArpParams { activated: false, synced: false, speed: 1000, rate: 0 }),
            forall|k: int|
                0 <= k < 12 ==> (#[trigger] r.notes[k]).active && r.notes[k].transpose == 0,
            forall|k: int, j: int|
                0 <= k < 12 && 0 <= j < NB_INTERVALS ==> r.notes[k].intervals[j].interval == 0,
    {
        let mut notes: Vec<NoteParam> = Vec::new();
        while notes.len() < 12
            invariant
                notes.len() <= 12,
                forall|k: int|
                    0 <= k < notes.len() ==> (#[trigger] notes[k]).active && notes[k].transpose
                        == 0 && notes[k].wf(),
                forall|k: int, j: int|
                    0 <= k < notes.len() && 0 <= j < NB_INTERVALS ==> notes[k].intervals[j].interval
                        == 0,
            decreases 12 - notes.len(),
        {
            let mut intervals: Vec<IntervalParam> = Vec::new();
            while intervals.len() < NB_INTERVALS
                invariant
                    intervals.len() <= NB_INTERVALS,
                    forall|j: int|
                        0 <= j < intervals.len() ==> (#[trigger] intervals[j]).interval == 0,
                decreases NB_INTERVALS - intervals.len(),
            {
                intervals.push(IntervalParam { interval: 0 });
            }
            notes.push(NoteParam { active: true, transpose: 0, intervals });
        }
        MidiTransposerParams {
            in_channel: 1,
            out_channel: 1,
            octave_transpose: 0,
            arp: ArpParams { activated: false, synced: false, speed: 1000, rate: 0 },
            notes,
        }
    }
}

} // verus!
