use crate::note_state::{inactive_note_state, NoteState};
use crate::params::ArpParams;
use vstd::prelude::*;

verus! {

// Musical time is counted in ticks of 1/480 quarter note, so every
// division of the table below is an exact whole number of ticks.
// Sample counts and sample offsets are plain integers.

/// One entry of the division table: a beat fraction in ticks.
#[derive(Clone, Copy, Debug, PartialEq, Eq, Structural)]
pub struct NoteDivision {
    pub division: u32,
}

/// The division selected by a rate index, in ticks: whole, half, dotted
/// quarter, quarter, dotted eighth, triplet quarter, eighth, triplet
/// eighth, sixteenth.
pub open spec fn division_ticks_spec(rate: u8) -> u32 {
    if rate == 0 {
        1920
    } else if rate == 1 {
        960
    } else if rate == 2 {
        720
    } else if rate == 3 {
        480
    } else if rate == 4 {
        360
    } else if rate == 5 {
        320
    } else if rate == 6 {
        240
    } else if rate == 7 {
        160
    } else {
        120
    }
}

/// Whether `d` is one of the nine divisions of the table.
pub open spec fn valid_division(d: u32) -> bool {
    d == 1920 || d == 960 || d == 720 || d == 480 || d == 360 || d == 320 || d == 240 || d == 160
        || d == 120
}

/// Looks the rate index up in the division table.
pub fn note_division(rate: u8) -> (r: NoteDivision)
    requires
        rate <= 8,
    ensures
        r.division == division_ticks_spec(rate),
        valid_division(r.division),
{
    let division: u32 = match rate {
        0 => 1920,
        1 => 960,
        2 => 720,
        3 => 480,
        4 => 360,
        5 => 320,
        6 => 240,
        7 => 160,
        _ => 120,
    };
    NoteDivision { division }
}

/// The tempo used by the timing formulas, in thousandths of a beat per
/// minute: an absent or degenerate host tempo defaults to 60 BPM.
pub open spec fn tempo_mbpm(tempo: Option<u64>) -> u64 {
    match tempo {
        Some(t) => t,
        None => 60_000,
    }
}

/// A host tempo is stored only when it is sane: between 1 and 60000 BPM.
/// Anything else counts as absent and falls back to the default.
pub open spec fn clamped_tempo(tempo: Option<u64>) -> Option<u64> {
    match tempo {
        Some(t) => if 1000 <= t <= 60_000_000 {
            Some(t)
        } else {
            None
        },
        None => None,
    }
}

/// Samples per beat: the sample rate divided by beats per second.
pub open spec fn samples_per_beat_spec(samplerate: u32, tempo: Option<u64>) -> int {
    samplerate * 60_000 / tempo_mbpm(tempo) as int
}

/// The clamped offset of the one trigger a block shorter than the note
/// duration can hold: `duration - time` held within `0 ..= ns - 1`.
pub open spec fn free_offset(time: int, dur: int, ns: int) -> int {
    if dur <= time {
        0
    } else if dur - time <= ns - 1 {
        dur - time
    } else {
        ns - 1
    }
}

/// The offsets at which the free-running clock fires inside one block of
/// `ns` samples, starting from the accumulated `time`. A block shorter
/// than the duration holds at most one trigger, where the accumulated
/// time crosses the duration; otherwise a trigger falls on every
/// duration step from `time` that lands inside the block.
pub open spec fn free_timings(time: int, dur: int, ns: int) -> Seq<u32> {
    if dur < 1 || ns < 1 {
        Seq::empty()
    } else if ns < dur {
        if time + ns >= dur {
            seq![free_offset(time, dur, ns) as u32]
        } else {
            Seq::empty()
        }
    } else {
        free_multiples(time, dur, ns)
    }
}

/// The duration steps `time + dur, time + 2*dur, ...` that land below
/// `ns`, walked until `time` reaches `ns`. The walk starts one step past
/// the carried-over time: no trigger fires at the carried-over offset
/// itself, so a block exactly as long as the duration fires nothing.
/// Whether the grid should include that first step is a product
/// question; this clock reads it as excluded, and
/// `lemma_free_mode_periodicity` states the exact count that yields.
pub open spec fn free_multiples(time: int, dur: int, ns: int) -> Seq<u32>
    decreases (if time < ns {
        ns - time
    } else {
        0
    }),
{
    if dur < 1 {
        Seq::empty()
    } else if time < ns {
        (if time + dur < ns {
            seq![(time + dur) as u32]
        } else {
            Seq::empty()
        }) + free_multiples(time + dur, dur, ns)
    } else {
        Seq::empty()
    }
}

/// Where the walk of `free_multiples` leaves the accumulated time: the
/// first duration step at or past `ns`.
pub open spec fn free_multiples_end(time: int, dur: int, ns: int) -> int
    decreases (if time < ns {
        ns - time
    } else {
        0
    }),
{
    if dur < 1 {
        time
    } else if time < ns {
        free_multiples_end(time + dur, dur, ns)
    } else {
        time
    }
}

/// The accumulated time the free-running clock carries out of a block:
/// wrapped by the duration when the block is the shorter, and by the
/// block size otherwise.
pub open spec fn free_time_after(time: int, dur: int, ns: int) -> int {
    if dur < 1 || ns < 1 {
        time
    } else if ns < dur {
        (time + ns) % dur
    } else {
        free_multiples_end(time, dur, ns) % ns
    }
}

/// The free-mode triggers counted over `k` consecutive blocks of `ns`
/// samples each, the clock starting from accumulated time `time`.
pub open spec fn free_blocks_total(time: int, dur: int, ns: int, k: nat) -> int
    decreases k,
{
    if k == 0 {
        0
    } else {
        free_timings(time, dur, ns).len() + free_blocks_total(
            free_time_after(time, dur, ns),
            dur,
            ns,
            (k - 1) as nat,
        )
    }
}

/// Free-mode periodicity: with the duration held constant and every block
/// shorter than the duration, the triggers over `k` blocks — `T = k * ns`
/// samples — number exactly `floor((time + T) / duration)`; from a reset
/// clock (`time == 0`) that is `floor(T / duration)`. A block exactly as
/// long as the duration falls outside this law: there the walk of
/// duration steps starts one step in and fires nothing.
pub proof fn lemma_free_mode_periodicity(time: int, dur: int, ns: int, k: nat)
    requires
        1 <= ns < dur,
        0 <= time < dur,
    ensures
        free_blocks_total(time, dur, ns, k) == (time + k * ns) / dur,
    decreases k,
{
    if k == 0 {
        vstd::arithmetic::div_mod::lemma_fundamental_div_mod_converse_div(time, dur, 0, time);
    } else {
        let c: int = if time + ns >= dur {
            1
        } else {
            0
        };
        let t2 = (time + ns) % dur;
        vstd::arithmetic::div_mod::lemma_fundamental_div_mod_converse_mod(
            time + ns,
            dur,
            c,
            time + ns - c * dur,
        );
        assert(t2 == time + ns - c * dur);
        lemma_free_mode_periodicity(t2, dur, ns, (k - 1) as nat);
        assert((k - 1) * ns == k * ns - ns) by (nonlinear_arith);
        let a = time + k * ns;
        if c == 1 {
            vstd::arithmetic::div_mod::lemma_fundamental_div_mod(a, dur);
            vstd::arithmetic::div_mod::lemma_mod_bound(a, dur);
            assert((a / dur - 1) * dur == (a / dur) * dur - dur) by (nonlinear_arith);
            assert(a - dur == (a / dur - 1) * dur + a % dur) by {
                assert(dur * (a / dur) == (a / dur) * dur) by (nonlinear_arith);
            }
            vstd::arithmetic::div_mod::lemma_fundamental_div_mod_converse_div(
                a - dur,
                dur,
                a / dur - 1,
                a % dur,
            );
        }
        assert(free_timings(time, dur, ns).len() == c);
    }
}

/// Free-mode triggers land inside the block, after the accumulated time,
/// in strictly increasing order: the block's events keep sample order.
pub proof fn lemma_free_multiples_ordered(time: int, dur: int, ns: int)
    requires
        1 <= dur,
        0 <= time,
        ns <= 0xFFFF_FFFF,
    ensures
        forall|i: int|
            0 <= i < free_multiples(time, dur, ns).len() ==> time < (#[trigger] free_multiples(time, dur, ns)[i]) as int
                && (free_multiples(time, dur, ns)[i] as int) < ns,
        forall|i: int, j: int|
            0 <= i < j < free_multiples(time, dur, ns).len() ==> free_multiples(time, dur, ns)[i]
                < free_multiples(time, dur, ns)[j],
    decreases (if time < ns {
        ns - time
    } else {
        0
    }),
{
    if time < ns {
        lemma_free_multiples_ordered(time + dur, dur, ns);
        let out = free_multiples(time, dur, ns);
        let head: Seq<u32> = if time + dur < ns {
            seq![(time + dur) as u32]
        } else {
            Seq::empty()
        };
        let tail = free_multiples(time + dur, dur, ns);
        assert forall|i: int| 0 <= i < out.len() implies time < (#[trigger] out[i]) as int && (
        out[i] as int) < ns by {
            if i < head.len() {
                assert(out[i] == head[0]);
            } else {
                assert(out[i] == tail[i - head.len()]);
            }
        }
        assert forall|i: int, j: int| 0 <= i < j < out.len() implies out[i] < out[j] by {
            if i < head.len() {
                assert(out[i] == head[0]);
                assert(out[j] == tail[j - head.len()]);
            } else {
                assert(out[i] == tail[i - head.len()]);
                assert(out[j] == tail[j - head.len()]);
            }
        }
    }
}

/// One block's free-mode offsets all land inside the block and never
/// decrease, whichever branch of the clock produced them.
pub proof fn lemma_free_timings_ordered(time: int, dur: int, ns: int)
    requires
        0 <= time,
        1 <= dur,
        1 <= ns <= 0xFFFF_FFFF,
    ensures
        forall|i: int|
            0 <= i < free_timings(time, dur, ns).len() ==> ((#[trigger] free_timings(
                time,
                dur,
                ns,
            )[i]) as int) < ns,
        forall|i: int, j: int|
            0 <= i <= j < free_timings(time, dur, ns).len() ==> free_timings(time, dur, ns)[i]
                <= free_timings(time, dur, ns)[j],
{
    if ns >= dur {
        lemma_free_multiples_ordered(time, dur, ns);
    }
}

/// The sub-beat grid a division snaps to: divisions coarser than a
/// quarter note snap to the quarter-note grid itself.
pub open spec fn min_division(div: int) -> int {
    if div > 480 {
        480
    } else {
        div
    }
}

/// The first point of the division grid after the last whole beat that
/// lies at or after the host's beat position `bp` (both in ticks). A
/// position exactly on a whole beat yields the point one sub-division
/// later, because the search starts one step in.
pub open spec fn first_grid_point(bp: int, div: int) -> int {
    let md = min_division(div);
    let frac = bp % 480;
    let k = if frac == 0 {
        1
    } else {
        (frac + md - 1) / md
    };
    bp - frac + k * md
}

/// The offset in samples from beat position `bp` to grid point `next`,
/// truncated to whole samples and saturated at the largest 32-bit value;
/// a grid point already passed counts as offset 0.
pub open spec fn sync_offset(next: int, bp: int, spb: int) -> int {
    if next < bp {
        0
    } else {
        let t = (next - bp) * spb / 480;
        if t > 0xFFFF_FFFF {
            0xFFFF_FFFF
        } else {
            t
        }
    }
}

/// A grid point whose offset falls inside the block lies less than a
/// block's worth of ticks past the beat position.
pub proof fn lemma_sync_step_bound(next: int, bp: int, spb: int, ns: int)
    requires
        1 <= spb,
        1 <= ns <= 0xFFFF_FFFF,
        sync_offset(next, bp, spb) < ns,
    ensures
        next - bp < 480 * ns,
{
    if next >= bp {
        let d = next - bp;
        let t = d * spb / 480;
        assert(t < ns);
        assert(d <= d * spb) by (nonlinear_arith)
            requires
                spb >= 1,
                d >= 0,
        ;
        vstd::arithmetic::div_mod::lemma_div_is_ordered(d, d * spb, 480);
        vstd::arithmetic::div_mod::lemma_fundamental_div_mod(d, 480);
        vstd::arithmetic::div_mod::lemma_mod_bound(d, 480);
        assert(480 * (d / 480) <= 480 * (ns - 1)) by (nonlinear_arith)
            requires
                d / 480 <= ns - 1,
        ;
    }
}

/// The offsets at which the synced clock fires inside one block of `ns`
/// samples: one for each grid point from `next` on, in steps of `div`
/// ticks, as long as the offset falls inside the block.
pub open spec fn sync_timings(next: int, bp: int, spb: int, div: int, ns: int) -> Seq<u32>
    decreases (if 480 * ns + 480 + bp - next > 0 {
        480 * ns + 480 + bp - next
    } else {
        0
    }),
{
    if spb < 1 || div < 1 || ns > 0xFFFF_FFFF {
        Seq::empty()
    } else if sync_offset(next, bp, spb) < ns {
        proof {
            lemma_sync_step_bound(next, bp, spb, ns);
        }
        seq![sync_offset(next, bp, spb) as u32] + sync_timings(next + div, bp, spb, div, ns)
    } else {
        Seq::empty()
    }
}

/// The grid point left pending after the block: the first one whose
/// offset falls at or beyond the block's end.
pub open spec fn sync_next_after(next: int, bp: int, spb: int, div: int, ns: int) -> int
    decreases (if 480 * ns + 480 + bp - next > 0 {
        480 * ns + 480 + bp - next
    } else {
        0
    }),
{
    if spb < 1 || div < 1 || ns > 0xFFFF_FFFF {
        next
    } else if sync_offset(next, bp, spb) < ns {
        proof {
            lemma_sync_step_bound(next, bp, spb, ns);
        }
        sync_next_after(next + div, bp, spb, div, ns)
    } else {
        next
    }
}

/// A later grid point never gives an earlier offset.
pub proof fn lemma_sync_offset_monotone(n1: int, n2: int, bp: int, spb: int)
    requires
        n1 <= n2,
        0 <= spb,
    ensures
        0 <= sync_offset(n1, bp, spb) <= sync_offset(n2, bp, spb),
{
    if n2 >= bp {
        vstd::arithmetic::div_mod::lemma_div_pos_is_pos((n2 - bp) * spb, 480);
        assert((n2 - bp) * spb >= 0) by (nonlinear_arith)
            requires
                n2 - bp >= 0,
                spb >= 0,
        ;
        if n1 >= bp {
            assert((n1 - bp) * spb <= (n2 - bp) * spb) by (nonlinear_arith)
                requires
                    0 <= n1 - bp <= n2 - bp,
                    spb >= 0,
            ;
            vstd::arithmetic::div_mod::lemma_div_is_ordered((n1 - bp) * spb, (n2 - bp) * spb, 480);
            vstd::arithmetic::div_mod::lemma_div_pos_is_pos((n1 - bp) * spb, 480);
        }
    }
}

/// Sync-mode phase lock: inside one block the `i`-th emitted offset sits
/// exactly on the `i`-th upcoming grid point, `next + i * div` ticks, and
/// inside the block, whatever the block size; so across blocks, with the
/// host's beat position advancing monotonically, every trigger lands on
/// the host's division grid to the one-sample truncation of
/// `sync_offset`.
pub proof fn lemma_sync_phase_lock(next: int, bp: int, spb: int, div: int, ns: int, i: int)
    requires
        1 <= spb,
        1 <= div,
        1 <= ns <= 0xFFFF_FFFF,
        0 <= i < sync_timings(next, bp, spb, div, ns).len(),
    ensures
        sync_timings(next, bp, spb, div, ns)[i] == sync_offset(next + i * div, bp, spb),
        sync_offset(next + i * div, bp, spb) < ns,
    decreases i,
{
    let s = sync_timings(next, bp, spb, div, ns);
    assert(sync_offset(next, bp, spb) < ns);
    if i == 0 {
        lemma_sync_offset_monotone(next, next, bp, spb);
        assert(s[0] == sync_offset(next, bp, spb) as u32);
    } else {
        lemma_sync_phase_lock(next + div, bp, spb, div, ns, i - 1);
        assert(next + div + (i - 1) * div == next + i * div) by (nonlinear_arith);
        lemma_sync_offset_monotone(next + i * div, next + i * div, bp, spb);
    }
}

/// The offsets a synced block emits never decrease: the outgoing events
/// keep non-decreasing sample order.
pub proof fn lemma_sync_offsets_ordered(next: int, bp: int, spb: int, div: int, ns: int, i: int, j: int)
    requires
        1 <= spb,
        1 <= div,
        1 <= ns <= 0xFFFF_FFFF,
        0 <= i <= j < sync_timings(next, bp, spb, div, ns).len(),
    ensures
        sync_timings(next, bp, spb, div, ns)[i] <= sync_timings(next, bp, spb, div, ns)[j],
{
    lemma_sync_phase_lock(next, bp, spb, div, ns, i);
    lemma_sync_phase_lock(next, bp, spb, div, ns, j);
    assert(i * div <= j * div) by (nonlinear_arith)
        requires
            0 <= i <= j,
            div >= 1,
    ;
    lemma_sync_offset_monotone(next + i * div, next + j * div, bp, spb);
}

/// The grid walk is complete: it stops exactly at the first grid point
/// whose offset falls at or beyond the block's end, one division past the
/// last trigger — no grid point inside the block is missed.
pub proof fn lemma_sync_walk_complete(next: int, bp: int, spb: int, div: int, ns: int)
    requires
        1 <= spb,
        1 <= div,
        1 <= ns <= 0xFFFF_FFFF,
    ensures
        sync_next_after(next, bp, spb, div, ns) == next + sync_timings(
            next,
            bp,
            spb,
            div,
            ns,
        ).len() * div,
        sync_offset(sync_next_after(next, bp, spb, div, ns), bp, spb) >= ns,
    decreases (if 480 * ns + 480 + bp - next > 0 {
        480 * ns + 480 + bp - next
    } else {
        0
    }),
{
    let len = sync_timings(next, bp, spb, div, ns).len();
    if sync_offset(next, bp, spb) < ns {
        lemma_sync_step_bound(next, bp, spb, ns);
        lemma_sync_walk_complete(next + div, bp, spb, div, ns);
        let len_tail = sync_timings(next + div, bp, spb, div, ns).len();
        assert(len == len_tail + 1);
        assert(next + div + len_tail * div == next + (len_tail + 1) * div) by (nonlinear_arith);
    } else {
        assert(len * div == 0) by (nonlinear_arith)
            requires
                len == 0,
        ;
    }
}

/// Computes `sync_offset` in whole numbers, with the product taken wide
/// enough that no admissible input overflows.
fn sync_offset_exec(next: u64, bp: u64, spb: u64) -> (r: u64)
    ensures
        r == sync_offset(next as int, bp as int, spb as int),
        r <= 0xFFFF_FFFF,
{
    if next < bp {
        0
    } else {
        let delta: u64 = next - bp;
        proof {
            assert(delta as int * spb as int <= 0xFFFF_FFFF_FFFF_FFFFu64 as int
                * 0xFFFF_FFFF_FFFF_FFFFu64 as int) by (nonlinear_arith)
                requires
                    0 <= delta <= 0xFFFF_FFFF_FFFF_FFFFu64,
                    0 <= spb <= 0xFFFF_FFFF_FFFF_FFFFu64,
            ;
        }
        let prod: u128 = delta as u128 * spb as u128;
        let t: u128 = prod / 480;
        if t > 0xFFFF_FFFF {
            0xFFFF_FFFF
        } else {
            t as u64
        }
    }
}

/// The sample-accurate scheduler of the arpeggio: it decides, for each
/// processing block, the sample offsets at which the next chord note
/// fires, keeps the rotation index into the chord and remembers the note
/// now sounding.
#[derive(Clone, Copy, Debug)]
pub struct Arpeggiator {
    pub samplerate: u32,
    pub synced: bool,
    pub tempo: Option<u64>,
    pub num_samples: u32,
    pub division: u32,
    pub next_beat_position: u64,
    pub time: u64,
    pub current_index: usize,
    pub note_info: NoteState,
}

/// The state the arpeggiator starts from.
pub open spec fn arpeggiator_initial() -> Arpeggiator {
    Arpeggiator {
        samplerate: 0,
        synced: false,
        tempo: None,
        num_samples: 0,
        division: 480,
        next_beat_position: 0,
        time: 0,
        current_index: 0,
        note_info: inactive_note_state(),
    }
}

/// The arpeggiator after a full reset: timing and rotation cleared, the
/// sample rate and sync flag kept.
pub open spec fn reset_arpeggiator(a: Arpeggiator) -> Arpeggiator {
    Arpeggiator {
        tempo: None,
        num_samples: 0,
        division: 480,
        next_beat_position: 0,
        time: 0,
        current_index: 0,
        note_info: inactive_note_state(),
        ..a
    }
}

/// A note duration never exceeds this many samples (the synced formula
/// peaks below 2^59 even at the slowest admissible tempo).
pub open spec fn max_note_duration() -> int {
    0x0800_0000_0000_0000
}

/// The duration of one arpeggio step in samples. Synced to a known tempo
/// it is the division's length on the host's beat grid, rounded up;
/// otherwise the speed parameter (thousandths) scales a span fixed by the
/// sample rate. Either way it is floored at one sample.
pub open spec fn note_duration_spec(a: Arpeggiator, speed: u16) -> int {
    let raw = if a.synced && a.tempo is Some {
        (a.samplerate * 60_000 * a.division + tempo_mbpm(a.tempo) * 480 - 1) / (tempo_mbpm(a.tempo)
            * 480)
    } else {
        a.samplerate * (1020 - speed) / 2000
    };
    if raw < 1 {
        1
    } else {
        raw
    }
}

impl Arpeggiator {
    pub open spec fn wf(self) -> bool {
        &&& valid_division(self.division)
        &&& self.tempo == clamped_tempo(self.tempo)
        &&& self.time <= 0x1000_0000_0000_0000
        &&& self.next_beat_position <= 0x2000_0000_0000_0000
    }

    pub fn new() -> (r: Self)
        ensures
            r == arpeggiator_initial(),
            r.wf(),
    {
        Arpeggiator {
            samplerate: 0,
            synced: false,
            tempo: None,
            num_samples: 0,
            division: 480,
            next_beat_position: 0,
            time: 0,
            current_index: 0,
            note_info: NoteState::default(),
        }
    }

    /// Clears timing and rotation; the sample rate and sync flag survive.
    pub fn reset(&mut self)
        ensures
            *final(self) == reset_arpeggiator(*old(self)),
            final(self).wf(),
    {
        self.tempo = None;
        self.num_samples = 0;
        self.division = 480;
        self.next_beat_position = 0;
        self.time = 0;
        self.current_index = 0;
        self.note_info.reset();
    }

    /// Called once at initialization with the host's sample rate.
    pub fn set_samplerate(&mut self, samplerate: u32)
        ensures
            *final(self) == (Arpeggiator { samplerate, ..*old(self) }),
    {
        self.samplerate = samplerate;
    }

    /// Called at the start of every block: takes the host tempo (kept
    /// only when sane), the block's sample count and the arpeggiator
    /// parameters; a change of division restarts the beat-grid search.
    pub fn set_process_info(&mut self, tempo: Option<u64>, num_samples: u32, params: &ArpParams)
        requires
            old(self).wf(),
            params.wf(),
        ensures
            *final(self) == (Arpeggiator {
                tempo: clamped_tempo(tempo),
                num_samples,
                synced: params.synced,
                division: division_ticks_spec(params.rate),
                next_beat_position: if division_ticks_spec(params.rate) != old(self).division {
                    0
                } else {
                    old(self).next_beat_position
                },
                ..*old(self)
            }),
            final(self).wf(),
    {
        self.tempo = match tempo {
            Some(t) => if 1000 <= t && t <= 60_000_000 {
                Some(t)
            } else {
                None
            },
            None => None,
        };
        self.num_samples = num_samples;
        self.synced = params.synced;
        let division = note_division(params.rate).division;
        if division != self.division {
            self.division = division;
            self.next_beat_position = 0;
        }
    }

    /// A new note was pressed: the rotation starts over at the first
    /// chord note, but the clock phase is deliberately kept, so the
    /// groove continues uninterrupted.
    pub fn restart(&mut self)
        ensures
            *final(self) == (Arpeggiator { current_index: 0, ..*old(self) }),
    {
        self.current_index = 0;
    }

    /// The duration of one arpeggio step in samples; see
    /// `note_duration_spec`.
    fn get_note_duration(&self, speed: u16) -> (r: u64)
        requires
            self.wf(),
            speed <= 1000,
        ensures
            r == note_duration_spec(*self, speed),
            1 <= r <= max_note_duration(),
    {
        let tempo_is_some = self.tempo.is_some();
        if self.synced && tempo_is_some {
            let tempo: u64 = match self.tempo {
                Some(t) => t,
                None => 60_000,
            };
            let rate_part: u64 = self.samplerate as u64 * 60_000;
            proof {
                assert(rate_part * self.division <= 0x0700_0000_0000_0000u64) by (nonlinear_arith)
                    requires
                        rate_part <= 0xFFFF_FFFFu64 * 60_000,
                        self.division <= 1920,
                ;
            }
            let num: u64 = rate_part * self.division as u64;
            let den: u64 = tempo * 480;
            let raw: u64 = (num + (den - 1)) / den;
            proof {
                vstd::arithmetic::div_mod::lemma_fundamental_div_mod(
                    num as int + den as int - 1,
                    den as int,
                );
                vstd::arithmetic::div_mod::lemma_mod_bound(num as int + den as int - 1, den as int);
                assert(den * raw <= num as int + den - 1);
                assert(num >= 1 ==> raw <= num) by (nonlinear_arith)
                    requires
                        den * raw <= num as int + den - 1,
                        den >= 1,
                        raw >= 0,
                ;
                assert(num == 0 ==> den * raw <= den - 1);
                assert(num == 0 ==> raw == 0) by (nonlinear_arith)
                    requires
                        num == 0 ==> den * raw <= den - 1,
                        den >= 1,
                        raw >= 0,
                ;
            }
            if raw < 1 {
                1
            } else {
                raw
            }
        } else {
            let span: u64 = (1020 - speed) as u64;
            proof {
                assert(self.samplerate as int * span <= 0xFFFF_FFFFint * 1020) by (nonlinear_arith)
                    requires
                        self.samplerate <= 0xFFFF_FFFFint,
                        0 <= span <= 1020,
                ;
            }
            let prod: u64 = self.samplerate as u64 * span;
            let raw: u64 = prod / 2000;
            if raw < 1 {
                1
            } else {
                raw
            }
        }
    }

    /// Advances the free-running clock over one block and appends the
    /// offsets at which a note fires: exactly `free_timings` of the
    /// accumulated time, the step duration and the block size. Only the
    /// accumulated time changes, to `free_time_after` of the same.
    pub fn arpeggiate_free(&mut self, speed: u16, timings: &mut Vec<u32>)
        requires
            old(self).wf(),
            speed <= 1000,
            old(self).num_samples >= 1,
        ensures
            final(self).wf(),
            *final(self) == (Arpeggiator { time: final(self).time, ..*old(self) }),
            final(self).time as int == free_time_after(
                old(self).time as int,
                note_duration_spec(*old(self), speed),
                old(self).num_samples as int,
            ),
            final(timings)@ == old(timings)@ + free_timings(
                old(self).time as int,
                note_duration_spec(*old(self), speed),
                old(self).num_samples as int,
            ),
    {
        let dur: u64 = self.get_note_duration(speed);
        let ns: u64 = self.num_samples as u64;
        if ns < dur {
            if self.time + ns >= dur {
                let raw: u64 = if dur <= self.time {
                    0
                } else {
                    dur - self.time
                };
                let offset: u64 = if raw <= ns - 1 {
                    raw
                } else {
                    ns - 1
                };
                timings.push(offset as u32);
                proof {
                    assert(timings@ =~= old(timings)@ + seq![
                        free_offset(
                            old(self).time as int,
                            dur as int,
                            ns as int,
                        ) as u32,
                    ]);
                }
            }
            self.time = (self.time + ns) % dur;
        } else {
            while self.time < ns
                invariant
                    1 <= dur <= max_note_duration(),
                    dur <= ns,
                    ns == old(self).num_samples,
                    1 <= ns <= 0xFFFF_FFFFu64,
                    *self == (Arpeggiator { time: self.time, ..*old(self) }),
                    timings@ + free_multiples(self.time as int, dur as int, ns as int) == old(
                        timings,
                    )@ + free_multiples(old(self).time as int, dur as int, ns as int),
                    free_multiples_end(self.time as int, dur as int, ns as int)
                        == free_multiples_end(old(self).time as int, dur as int, ns as int),
                decreases (if self.time < ns {
                    ns - self.time
                } else {
                    0int
                }),
            {
                let timing: u64 = self.time + dur;
                let ghost pre = timings@;
                let ghost t = self.time as int;
                if timing < ns {
                    timings.push(timing as u32);
                }
                proof {
                    let item: Seq<u32> = if t + dur < ns as int {
                        seq![(t + dur) as u32]
                    } else {
                        Seq::empty()
                    };
                    let rest = free_multiples(t + dur, dur as int, ns as int);
                    assert(free_multiples(t, dur as int, ns as int) == item + rest);
                    assert(timings@ =~= pre + item);
                    assert(timings@ + rest =~= pre + (item + rest));
                }
                self.time = timing;
            }
            proof {
                assert(free_multiples(self.time as int, dur as int, ns as int)
                    =~= Seq::<u32>::empty());
                assert(timings@ =~= old(timings)@ + free_multiples(
                    old(self).time as int,
                    dur as int,
                    ns as int,
                ));
            }
            self.time = self.time % ns;
        }
    }

    /// Advances the host-synced clock over one block and appends the
    /// offsets at which a note fires: one for each point of the division
    /// grid that falls inside the block, starting from the pending grid
    /// point (or, after a reset or a division change, from the first grid
    /// point at or after the host's beat position). Only the pending grid
    /// point changes, to the first one beyond the block. The sample rate
    /// and tempo must give at least one sample per beat.
    pub fn arpeggiate_sync(&mut self, beat_position: u64, timings: &mut Vec<u32>)
        requires
            old(self).wf(),
            1 <= old(self).num_samples,
            samples_per_beat_spec(old(self).samplerate, old(self).tempo) >= 1,
            beat_position <= 0x1000_0000_0000_0000,
        ensures
            final(self).wf(),
            *final(self) == (Arpeggiator {
                next_beat_position: final(self).next_beat_position,
                ..*old(self)
            }),
            ({
                let spb = samples_per_beat_spec(old(self).samplerate, old(self).tempo);
                let n0 = if old(self).next_beat_position == 0 {
                    first_grid_point(beat_position as int, old(self).division as int)
                } else {
                    old(self).next_beat_position as int
                };
                &&& final(timings)@ == old(timings)@ + sync_timings(
                    n0,
                    beat_position as int,
                    spb,
                    old(self).division as int,
                    old(self).num_samples as int,
                )
                &&& final(self).next_beat_position as int == sync_next_after(
                    n0,
                    beat_position as int,
                    spb,
                    old(self).division as int,
                    old(self).num_samples as int,
                )
            }),
    {
        let tempo: u64 = match self.tempo {
            Some(t) => t,
            None => 60_000,
        };
        let spb: u64 = self.samplerate as u64 * 60_000 / tempo;
        let ns: u64 = self.num_samples as u64;
        let div: u64 = self.division as u64;
        if self.next_beat_position == 0 {
            // First use after a reset or a division change: find the
            // first grid point at or after the host's position.
            let md: u64 = if div > 480 {
                480
            } else {
                div
            };
            let frac: u64 = beat_position % 480;
            let k: u64 = if frac == 0 {
                1
            } else {
                (frac + md - 1) / md
            };
            proof {
                vstd::arithmetic::div_mod::lemma_fundamental_div_mod(
                    frac as int + md as int - 1,
                    md as int,
                );
                vstd::arithmetic::div_mod::lemma_mod_bound(frac as int + md as int - 1, md as int);
                assert(k <= 960);
                assert(k as int * md as int <= 960 * 480) by (nonlinear_arith)
                    requires
                        0 <= k <= 960,
                        0 <= md <= 480,
                ;
            }
            self.next_beat_position = beat_position - frac + k * md;
        }
        let ghost n0 = self.next_beat_position as int;
        let ghost bp = beat_position as int;
        let mut offset: u64 = sync_offset_exec(self.next_beat_position, beat_position, spb);
        while offset < ns
            invariant
                old(self).wf(),
                spb == samples_per_beat_spec(old(self).samplerate, old(self).tempo),
                1 <= spb,
                ns == old(self).num_samples,
                1 <= ns <= 0xFFFF_FFFF,
                div == old(self).division,
                120 <= div <= 1920,
                bp == beat_position,
                beat_position <= 0x1000_0000_0000_0000,
                *self == (Arpeggiator {
                    next_beat_position: self.next_beat_position,
                    ..*old(self)
                }),
                self.next_beat_position as int == n0 || self.next_beat_position as int <= bp + 480
                    * ns + 2400,
                n0 <= 0x2000_0000_0000_0000 || n0 <= bp + 960,
                offset == sync_offset(self.next_beat_position as int, bp, spb as int),
                offset <= 0xFFFF_FFFF,
                timings@ + sync_timings(self.next_beat_position as int, bp, spb as int, div as int, ns as int)
                    == old(timings)@ + sync_timings(n0, bp, spb as int, div as int, ns as int),
                sync_next_after(self.next_beat_position as int, bp, spb as int, div as int, ns as int)
                    == sync_next_after(n0, bp, spb as int, div as int, ns as int),
            decreases (if 480 * (ns as int) + 480 + bp - self.next_beat_position as int > 0 {
                480 * (ns as int) + 480 + bp - self.next_beat_position as int
            } else {
                0int
            }),
        {
            let ghost prev = self.next_beat_position as int;
            let ghost pre = timings@;
            proof {
                lemma_sync_step_bound(prev, bp, spb as int, ns as int);
            }
            timings.push(offset as u32);
            self.next_beat_position = self.next_beat_position + div;
            offset = sync_offset_exec(self.next_beat_position, beat_position, spb);
            proof {
                let item: Seq<u32> = seq![sync_offset(prev, bp, spb as int) as u32];
                let rest = sync_timings(
                    self.next_beat_position as int,
                    bp,
                    spb as int,
                    div as int,
                    ns as int,
                );
                assert(sync_timings(prev, bp, spb as int, div as int, ns as int) == item + rest);
                assert(timings@ =~= pre + item);
                assert(timings@ + rest =~= pre + (item + rest));
            }
        }
        proof {
            assert(sync_timings(
                self.next_beat_position as int,
                bp,
                spb as int,
                div as int,
                ns as int,
            ) =~= Seq::<u32>::empty());
            assert(timings@ =~= old(timings)@ + sync_timings(
                n0,
                bp,
                spb as int,
                div as int,
                ns as int,
            ));
        }
    }
}

} // verus!
