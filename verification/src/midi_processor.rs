use crate::arpeggiator::{
    arpeggiator_initial, clamped_tempo, division_ticks_spec, first_grid_point, free_time_after,
    free_timings, lemma_free_timings_ordered, lemma_sync_offsets_ordered, note_duration_spec,
    reset_arpeggiator, samples_per_beat_spec, sync_next_after, sync_timings, valid_division,
    Arpeggiator,
};
use crate::chord_processor::{chord_seq, ChordProcessor};
use crate::note_info::NoteInfo;
use crate::note_state::{inactive_note_state, NoteState};
use crate::params::MidiTransposerParams;
use vstd::prelude::*;

verus! {

/// One outgoing (or incoming) note message: pitch, channel, the host's
/// velocity encoding, and the sample offset inside the block.
#[derive(Clone, Copy, Debug, PartialEq, Eq, Structural)]
pub enum NoteEvent {
    NoteOn { note: u8, channel: u8, velocity: u32, timing: u32 },
    NoteOff { note: u8, channel: u8, velocity: u32, timing: u32 },
}

/// What the host transport reports for a block: whether it is playing,
/// the tempo in thousandths of a beat per minute, and the position of the
/// block's start in ticks of 1/480 quarter note.
#[derive(Clone, Copy, Debug)]
pub struct Transport {
    pub playing: bool,
    pub tempo: Option<u64>,
    pub pos_beats: Option<u64>,
}

impl Transport {
    pub open spec fn wf(self) -> bool {
        match self.pos_beats {
            Some(b) => b <= 0x1000_0000_0000_0000,
            None => true,
        }
    }
}

/// A spec-level image of the whole engine: the outgoing events and the
/// voice-stack state as mathematical values. Every transition of the
/// engine is stated as a function over this image.
pub struct EngineModel {
    pub arp: Arpeggiator,
    pub events: Seq<NoteEvent>,
    pub current: NoteState,
    pub held: Seq<NoteInfo>,
    pub chord: Seq<NoteInfo>,
}

/// The note-on events that sound a chord at offset `timing`, in chord
/// order, each with its note's own channel and velocity.
pub open spec fn on_events(chord: Seq<NoteInfo>, timing: u32) -> Seq<NoteEvent> {
    chord.map(
        |i: int, g: NoteInfo|
            NoteEvent::NoteOn { note: g.note, channel: g.channel, velocity: g.velocity, timing },
    )
}

/// The note-off events that silence a chord, all with the release
/// velocity.
pub open spec fn off_events(chord: Seq<NoteInfo>, velocity: u32, timing: u32) -> Seq<NoteEvent> {
    chord.map(
        |i: int, g: NoteInfo|
            NoteEvent::NoteOff { note: g.note, channel: g.channel, velocity, timing },
    )
}

/// What `play_chord` emits: the chord's note-ons — or nothing while the
/// arpeggiator owns playback.
pub open spec fn play_events(params: MidiTransposerParams, chord: Seq<NoteInfo>, timing: u32) -> Seq<
    NoteEvent,
> {
    if params.arp.activated {
        Seq::empty()
    } else {
        on_events(chord, timing)
    }
}

/// What `stop_chord` emits: the chord's note-offs — or nothing while the
/// arpeggiator owns playback.
pub open spec fn stop_events(
    params: MidiTransposerParams,
    chord: Seq<NoteInfo>,
    velocity: u32,
    timing: u32,
) -> Seq<NoteEvent> {
    if params.arp.activated {
        Seq::empty()
    } else {
        off_events(chord, velocity, timing)
    }
}

/// The one note-off that silences the arpeggiator's sounding note, if one
/// sounds.
pub open spec fn arp_off_events(sounding: NoteState, velocity: u32, timing: u32) -> Seq<NoteEvent> {
    match sounding.note {
        Some(n) => seq![
            NoteEvent::NoteOff { note: n, channel: sounding.channel, velocity, timing },
        ],
        None => Seq::empty(),
    }
}

/// The chord for note `n` as note records: `chord_seq`'s pitches, each
/// carrying the triggering note's channel, velocity and offset.
pub open spec fn chord_note_infos(params: MidiTransposerParams, n: NoteInfo) -> Seq<NoteInfo> {
    chord_seq(params, n).map(
        |i: int, p: u8|
            NoteInfo { note: p, channel: n.channel, velocity: n.velocity, timing: n.timing },
    )
}

/// The held note as the engine's "current held note" slot.
pub open spec fn note_state_of(n: NoteInfo) -> NoteState {
    NoteState { note: Some(n.note), channel: n.channel, velocity: n.velocity, timing: n.timing }
}

/// The held notes left after a pitch is released: every record of that
/// pitch leaves the stack, press order otherwise kept.
pub open spec fn remove_pitch(held: Seq<NoteInfo>, pitch: u8) -> Seq<NoteInfo>
    decreases held.len(),
{
    if held.len() == 0 {
        Seq::empty()
    } else {
        remove_pitch(held.drop_last(), pitch) + if held.last().note != pitch {
            seq![held.last()]
        } else {
            Seq::empty()
        }
    }
}

/// A note was pressed: it joins the stack and becomes the current held
/// note; if a different note was sounding its chord is stopped first (in
/// chord mode); the new chord is built and played, and the arpeggio
/// rotation starts over.
pub open spec fn model_note_on(
    params: MidiTransposerParams,
    m: EngineModel,
    n: NoteInfo,
) -> EngineModel {
    let stop_prev = m.current.note is Some && m.current.note != Some(n.note);
    let chord2 = chord_note_infos(params, n);
    EngineModel {
        arp: Arpeggiator { current_index: 0, ..m.arp },
        events: m.events + (if stop_prev {
            stop_events(params, m.chord, n.velocity, n.timing)
        } else {
            Seq::empty()
        }) + play_events(params, chord2, n.timing),
        current: note_state_of(n),
        held: m.held.push(n),
        chord: chord2,
    }
}

/// A note was released: it leaves the stack. If it was not the current
/// held note nothing else changes. If it was, its chord is stopped; then
/// either the stack is empty — the chord is cleared, the arpeggiator's
/// sounding note stopped and the arpeggiator reset — or the most recent
/// note still held takes over, its chord rebuilt and played at the offset
/// it was pressed at, with the arpeggio rotation starting over.
pub open spec fn model_note_off(
    params: MidiTransposerParams,
    m: EngineModel,
    n: NoteInfo,
) -> EngineModel {
    let held2 = remove_pitch(m.held, n.note);
    if m.current.note == Some(n.note) {
        let stopped = m.events + stop_events(params, m.chord, n.velocity, n.timing);
        if held2.len() == 0 {
            EngineModel {
                arp: reset_arpeggiator(m.arp),
                events: stopped + arp_off_events(m.arp.note_info, n.velocity, n.timing),
                current: inactive_note_state(),
                held: held2,
                chord: Seq::empty(),
            }
        } else {
            let r = held2.last();
            EngineModel {
                arp: Arpeggiator { current_index: 0, ..m.arp },
                events: stopped + play_events(params, chord_note_infos(params, r), r.timing),
                current: note_state_of(r),
                held: held2,
                chord: chord_note_infos(params, r),
            }
        }
    } else {
        EngineModel { held: held2, ..m }
    }
}

/// One arpeggio trigger at `timing`: the sounding note (if any) is
/// stopped first. With an empty chord no note starts and the sounding
/// slot is left unset — nothing is playing once its note-off is out, so
/// a later trigger must not stop it again. Otherwise the chord note at
/// the rotation index starts, becomes the sounding note, and the index
/// advances by one, wrapping around the chord.
pub open spec fn model_arp_trigger(m: EngineModel, timing: u32) -> EngineModel {
    let off = arp_off_events(m.arp.note_info, m.arp.note_info.velocity, timing);
    if m.chord.len() == 0 {
        EngineModel {
            arp: Arpeggiator { note_info: inactive_note_state(), ..m.arp },
            events: m.events + off,
            ..m
        }
    } else {
        let g = m.chord[m.arp.current_index as int];
        EngineModel {
            arp: Arpeggiator {
                current_index: ((m.arp.current_index + 1) % (m.chord.len() as int)) as usize,
                note_info: note_state_of(g),
                ..m.arp
            },
            events: m.events + off + seq![
                NoteEvent::NoteOn {
                    note: g.note,
                    channel: g.channel,
                    velocity: g.velocity,
                    timing,
                },
            ],
            ..m
        }
    }
}

/// The engine after one block's triggers fire in order.
pub open spec fn model_arp_triggers(m: EngineModel, ts: Seq<u32>) -> EngineModel
    decreases ts.len(),
{
    if ts.len() == 0 {
        m
    } else {
        model_arp_triggers(model_arp_trigger(m, ts[0]), ts.drop_first())
    }
}

/// Folding one more trigger in from the right.
proof fn lemma_arp_triggers_snoc(m: EngineModel, ts: Seq<u32>)
    requires
        ts.len() > 0,
    ensures
        model_arp_triggers(m, ts) == model_arp_trigger(
            model_arp_triggers(m, ts.drop_last()),
            ts.last(),
        ),
    decreases ts.len(),
{
    if ts.len() == 1 {
        assert(ts.drop_last() =~= Seq::<u32>::empty());
        assert(ts.drop_first() =~= Seq::<u32>::empty());
    } else {
        lemma_arp_triggers_snoc(model_arp_trigger(m, ts[0]), ts.drop_first());
        assert(ts.drop_first().drop_last() =~= ts.drop_last().drop_first());
        assert(ts.drop_first().last() == ts.last());
        assert(ts.drop_last()[0] == ts[0]);
    }
}

/// The sample offset an event carries.
pub open spec fn event_timing(e: NoteEvent) -> u32 {
    match e {
        NoteEvent::NoteOn { timing, .. } => timing,
        NoteEvent::NoteOff { timing, .. } => timing,
    }
}

/// One trigger only appends, keeps what was already emitted in place,
/// and stamps everything it appends with its own offset.
proof fn lemma_arp_trigger_emits_at(m: EngineModel, timing: u32)
    ensures
        model_arp_trigger(m, timing).events.len() >= m.events.len(),
        model_arp_trigger(m, timing).events.take(m.events.len() as int) == m.events,
        forall|i: int|
            m.events.len() <= i < model_arp_trigger(m, timing).events.len() ==> event_timing(
                #[trigger] model_arp_trigger(m, timing).events[i],
            ) == timing,
{
    let r = model_arp_trigger(m, timing).events;
    let off = arp_off_events(m.arp.note_info, m.arp.note_info.velocity, timing);
    assert(r.take(m.events.len() as int) =~= m.events);
    assert forall|i: int| m.events.len() <= i < r.len() implies event_timing(#[trigger] r[i])
        == timing by {
        if i - m.events.len() < off.len() {
            assert(r[i] == off[i - m.events.len()]);
        }
    }
}

/// One arpeggiator pass keeps sample order (the block-ordering guarantee
/// for the clock's half of a block): with the trigger offsets
/// non-decreasing — as both clocks deliver them — the pass only appends,
/// the events already emitted stay in place, and the appended events
/// carry non-decreasing offsets, none before the first trigger.
pub proof fn lemma_arp_triggers_emit_ordered(m: EngineModel, ts: Seq<u32>)
    requires
        forall|i: int, j: int| 0 <= i <= j < ts.len() ==> ts[i] <= ts[j],
    ensures
        model_arp_triggers(m, ts).events.len() >= m.events.len(),
        model_arp_triggers(m, ts).events.take(m.events.len() as int) == m.events,
        ts.len() > 0 ==> forall|i: int|
            m.events.len() <= i < model_arp_triggers(m, ts).events.len() ==> ts[0] <= event_timing(
                #[trigger] model_arp_triggers(m, ts).events[i],
            ),
        forall|i: int, j: int|
            m.events.len() <= i <= j < model_arp_triggers(m, ts).events.len() ==> event_timing(
                model_arp_triggers(m, ts).events[i],
            ) <= event_timing(model_arp_triggers(m, ts).events[j]),
    decreases ts.len(),
{
    if ts.len() > 0 {
        let m1 = model_arp_trigger(m, ts[0]);
        let r = model_arp_triggers(m, ts).events;
        lemma_arp_trigger_emits_at(m, ts[0]);
        assert(forall|i: int, j: int|
            0 <= i <= j < ts.drop_first().len() ==> ts.drop_first()[i] <= ts.drop_first()[j]);
        lemma_arp_triggers_emit_ordered(m1, ts.drop_first());
        assert(r == model_arp_triggers(m1, ts.drop_first()).events);
        assert(r.take(m.events.len() as int) =~= m.events) by {
            assert(forall|i: int|
                0 <= i < m1.events.len() ==> r[i] == #[trigger] r.take(m1.events.len() as int)[i]);
            assert(forall|i: int|
                0 <= i < m.events.len() ==> m1.events[i] == #[trigger] m1.events.take(
                    m.events.len() as int,
                )[i]);
        }
        assert forall|i: int| m.events.len() <= i < r.len() implies ts[0] <= event_timing(
            #[trigger] r[i],
        ) by {
            if i < m1.events.len() {
                assert(r[i] == r.take(m1.events.len() as int)[i]);
                assert(r[i] == m1.events[i]);
                assert(event_timing(r[i]) == ts[0]);
            } else {
                assert(ts.drop_first().len() > 0);
                assert(ts.drop_first()[0] == ts[1]);
                assert(ts[0] <= ts[1]);
            }
        }
        assert forall|i: int, j: int|
            m.events.len() <= i <= j < r.len() implies event_timing(r[i]) <= event_timing(
            r[j],
        ) by {
            if j < m1.events.len() {
                assert(r[i] == r.take(m1.events.len() as int)[i]);
                assert(r[j] == r.take(m1.events.len() as int)[j]);
                assert(r[i] == m1.events[i] && r[j] == m1.events[j]);
            } else if i < m1.events.len() {
                assert(r[i] == r.take(m1.events.len() as int)[i]);
                assert(r[i] == m1.events[i]);
                assert(event_timing(r[i]) == ts[0]);
                assert(ts.drop_first().len() > 0);
                assert(ts.drop_first()[0] == ts[1]);
                assert(ts[0] <= ts[1]);
            }
        }
    }
}

/// A whole block of free-running arpeggio: the clock advances over the
/// block and each of its trigger offsets fires in order.
pub open spec fn model_arp_free(params: MidiTransposerParams, m: EngineModel) -> EngineModel {
    let dur = note_duration_spec(m.arp, params.arp.speed);
    let ns = m.arp.num_samples as int;
    let ts = free_timings(m.arp.time as int, dur, ns);
    let m1 = EngineModel {
        arp: Arpeggiator {
            time: free_time_after(m.arp.time as int, dur, ns) as u64,
            ..m.arp
        },
        ..m
    };
    model_arp_triggers(m1, ts)
}

/// A whole block of host-synced arpeggio at beat position `bp`: the grid
/// walk advances over the block and each trigger offset fires in order.
pub open spec fn model_arp_sync(params: MidiTransposerParams, m: EngineModel, bp: int) -> EngineModel {
    let spb = samples_per_beat_spec(m.arp.samplerate, m.arp.tempo);
    let div = m.arp.division as int;
    let ns = m.arp.num_samples as int;
    let n0 = if m.arp.next_beat_position == 0 {
        first_grid_point(bp, div)
    } else {
        m.arp.next_beat_position as int
    };
    let ts = sync_timings(n0, bp, spb, div, ns);
    let m1 = EngineModel {
        arp: Arpeggiator {
            next_beat_position: sync_next_after(n0, bp, spb, div, ns) as u64,
            ..m.arp
        },
        ..m
    };
    model_arp_triggers(m1, ts)
}

/// One free-running pass over a block appends its events in
/// non-decreasing offset order, leaving what was already emitted in
/// place.
pub proof fn lemma_arp_free_pass_ordered(params: MidiTransposerParams, m: EngineModel)
    requires
        m.arp.num_samples >= 1,
    ensures
        model_arp_free(params, m).events.len() >= m.events.len(),
        model_arp_free(params, m).events.take(m.events.len() as int) == m.events,
        forall|i: int, j: int|
            m.events.len() <= i <= j < model_arp_free(params, m).events.len() ==> event_timing(
                model_arp_free(params, m).events[i],
            ) <= event_timing(model_arp_free(params, m).events[j]),
{
    let dur = note_duration_spec(m.arp, params.arp.speed);
    let ns = m.arp.num_samples as int;
    let ts = free_timings(m.arp.time as int, dur, ns);
    let m1 = EngineModel {
        arp: Arpeggiator {
            time: free_time_after(m.arp.time as int, dur, ns) as u64,
            ..m.arp
        },
        ..m
    };
    assert(dur >= 1);
    lemma_free_timings_ordered(m.arp.time as int, dur, ns);
    lemma_arp_triggers_emit_ordered(m1, ts);
}

/// One host-synced pass over a block appends its events in
/// non-decreasing offset order, leaving what was already emitted in
/// place.
pub proof fn lemma_arp_sync_pass_ordered(params: MidiTransposerParams, m: EngineModel, bp: int)
    requires
        m.arp.num_samples >= 1,
        valid_division(m.arp.division),
        samples_per_beat_spec(m.arp.samplerate, m.arp.tempo) >= 1,
    ensures
        model_arp_sync(params, m, bp).events.len() >= m.events.len(),
        model_arp_sync(params, m, bp).events.take(m.events.len() as int) == m.events,
        forall|i: int, j: int|
            m.events.len() <= i <= j < model_arp_sync(params, m, bp).events.len() ==> event_timing(
                model_arp_sync(params, m, bp).events[i],
            ) <= event_timing(model_arp_sync(params, m, bp).events[j]),
{
    let spb = samples_per_beat_spec(m.arp.samplerate, m.arp.tempo);
    let div = m.arp.division as int;
    let ns = m.arp.num_samples as int;
    let n0 = if m.arp.next_beat_position == 0 {
        first_grid_point(bp, div)
    } else {
        m.arp.next_beat_position as int
    };
    let ts = sync_timings(n0, bp, spb, div, ns);
    let m1 = EngineModel {
        arp: Arpeggiator {
            next_beat_position: sync_next_after(n0, bp, spb, div, ns) as u64,
            ..m.arp
        },
        ..m
    };
    assert forall|i: int, j: int| 0 <= i <= j < ts.len() implies ts[i] <= ts[j] by {
        lemma_sync_offsets_ordered(n0, bp, spb, div, ns, i, j);
    }
    lemma_arp_triggers_emit_ordered(m1, ts);
}

/// The host position, 0 when the transport reports none.
pub open spec fn transport_pos(t: Transport) -> u64 {
    match t.pos_beats {
        Some(b) => b,
        None => 0,
    }
}

/// A whole arpeggiator pass over one block: the clock takes the block's
/// tempo, size and parameters, then runs host-synced when the parameters
/// ask for sync, the transport is playing with a known tempo and the
/// timing is not degenerate (at least one sample per beat); free-running
/// otherwise.
pub open spec fn model_process_arp(
    params: MidiTransposerParams,
    m: EngineModel,
    samples: u32,
    t: Transport,
) -> EngineModel {
    let a1 = Arpeggiator {
        tempo: clamped_tempo(t.tempo),
        num_samples: samples,
        synced: params.arp.synced,
        division: division_ticks_spec(params.arp.rate),
        next_beat_position: if division_ticks_spec(params.arp.rate) != m.arp.division {
            0
        } else {
            m.arp.next_beat_position
        },
        ..m.arp
    };
    let m1 = EngineModel { arp: a1, ..m };
    if params.arp.synced && t.playing && t.tempo is Some && samples_per_beat_spec(
        a1.samplerate,
        a1.tempo,
    ) >= 1 {
        model_arp_sync(params, m1, transport_pos(t) as int)
    } else {
        model_arp_free(params, m1)
    }
}

/// The arpeggiator was switched on or off. Switched on while a note is
/// held, the sounding chord is stopped and the clock takes over from
/// rotation index zero. Switched off, the sounding arpeggio note is
/// stopped before anything starts, the clock is fully reset, and the
/// chord of the held note, if any, is restarted.
pub open spec fn model_arp_toggled(m: EngineModel, on_off: bool) -> EngineModel {
    if on_off {
        if m.current.note is Some {
            EngineModel { events: m.events + off_events(m.chord, 0, 0), ..m }
        } else {
            m
        }
    } else {
        let cleared = EngineModel {
            arp: reset_arpeggiator(m.arp),
            events: m.events + arp_off_events(m.arp.note_info, 0, 0),
            ..m
        };
        if m.current.note is Some {
            EngineModel { events: cleared.events + on_events(m.chord, 0), ..cleared }
        } else {
            cleared
        }
    }
}

/// The pitch a note event carries.
pub open spec fn event_note(e: NoteEvent) -> u8 {
    match e {
        NoteEvent::NoteOn { note, .. } => note,
        NoteEvent::NoteOff { note, .. } => note,
    }
}

/// The channel a note event carries.
pub open spec fn event_channel(e: NoteEvent) -> u8 {
    match e {
        NoteEvent::NoteOn { channel, .. } => channel,
        NoteEvent::NoteOff { channel, .. } => channel,
    }
}

/// The channel an output event sounds on: the input channel passed
/// through, or the forced output channel when one is configured.
pub open spec fn out_channel(params: MidiTransposerParams, ch: u8) -> u8 {
    if params.out_channel > 0 {
        (params.out_channel - 1) as u8
    } else {
        ch
    }
}

/// Whether the input-channel filter excludes the event from processing:
/// a filtered event passes through unchanged.
pub open spec fn event_filtered(params: MidiTransposerParams, e: NoteEvent) -> bool {
    params.in_channel > 0 && event_channel(e) != (params.in_channel - 1) as u8
}

/// The note record an accepted event becomes, on its output channel.
pub open spec fn event_note_info(params: MidiTransposerParams, e: NoteEvent) -> NoteInfo {
    match e {
        NoteEvent::NoteOn { note, channel, velocity, timing } => NoteInfo {
            note,
            channel: out_channel(params, channel),
            velocity,
            timing,
        },
        NoteEvent::NoteOff { note, channel, velocity, timing } => NoteInfo {
            note,
            channel: out_channel(params, channel),
            velocity,
            timing,
        },
    }
}

/// One incoming event: passed through when the channel filter excludes
/// it, otherwise translated to the output channel and handed to the
/// voice stack as a press or a release.
pub open spec fn model_process_event(
    params: MidiTransposerParams,
    m: EngineModel,
    e: NoteEvent,
) -> EngineModel {
    if event_filtered(params, e) {
        EngineModel { events: m.events.push(e), ..m }
    } else if e is NoteOn {
        model_note_on(params, m, event_note_info(params, e))
    } else {
        model_note_off(params, m, event_note_info(params, e))
    }
}

/// The block's incoming events, consumed in host order.
pub open spec fn model_process_events(
    params: MidiTransposerParams,
    m: EngineModel,
    events: Seq<NoteEvent>,
) -> EngineModel
    decreases events.len(),
{
    if events.len() == 0 {
        m
    } else {
        model_process_events(params, model_process_event(params, m, events[0]), events.drop_first())
    }
}

/// Folding one more event in from the right.
proof fn lemma_process_events_snoc(
    params: MidiTransposerParams,
    m: EngineModel,
    events: Seq<NoteEvent>,
)
    requires
        events.len() > 0,
    ensures
        model_process_events(params, m, events) == model_process_event(
            params,
            model_process_events(params, m, events.drop_last()),
            events.last(),
        ),
    decreases events.len(),
{
    if events.len() == 1 {
        assert(events.drop_last() =~= Seq::<NoteEvent>::empty());
        assert(events.drop_first() =~= Seq::<NoteEvent>::empty());
    } else {
        lemma_process_events_snoc(
            params,
            model_process_event(params, m, events[0]),
            events.drop_first(),
        );
        assert(events.drop_first().drop_last() =~= events.drop_last().drop_first());
        assert(events.drop_first().last() == events.last());
        assert(events.drop_last()[0] == events[0]);
    }
}

/// One whole processing block: the arpeggiator's on/off transition when
/// the cross-thread signal says its state changed since the last block,
/// then the block's events in host order, then — with the arpeggiator on
/// — the arpeggiator's pass over the block's samples.
///
/// Events leave in processing order, not re-sorted by offset. Within one
/// phase the offsets never decrease: a chord answers its event at that
/// event's offset, and the arpeggiator pass appends in non-decreasing
/// offset order (`lemma_arp_free_pass_ordered`,
/// `lemma_arp_sync_pass_ordered`). Across phases the order can turn
/// back: a release late in the block emits its stops before arpeggio
/// triggers at earlier offsets of the same block, and a retriggered
/// chord replays at the revived note's stored press offset, which may
/// precede the release that revived it.
pub open spec fn model_process_block(
    params: MidiTransposerParams,
    m: EngineModel,
    events: Seq<NoteEvent>,
    samples: u32,
    t: Transport,
    arp_reset_signal: bool,
) -> EngineModel {
    let m1 = if arp_reset_signal {
        model_arp_toggled(m, params.arp.activated)
    } else {
        m
    };
    let m2 = model_process_events(params, m1, events);
    if params.arp.activated {
        model_process_arp(params, m2, samples, t)
    } else {
        m2
    }
}

/// The engine of the effect: it consumes the block's note events, keeps
/// the stack of held notes with last-note priority, derives the chord of
/// the current note, and either plays chords directly or hands the chord
/// to the arpeggiator's schedule.
pub struct MidiProcessor {
    pub arpeggiator: Arpeggiator,
    pub midi_events: Vec<NoteEvent>,
    pub current_note_held: NoteState,
    pub notes_held: Vec<NoteInfo>,
    pub generated_chord: Vec<NoteInfo>,
}

/// The engine as it starts: nothing held, nothing sounding, no events.
pub open spec fn initial_engine_model() -> EngineModel {
    EngineModel {
        arp: arpeggiator_initial(),
        events: Seq::empty(),
        current: inactive_note_state(),
        held: Seq::empty(),
        chord: Seq::empty(),
    }
}

impl MidiProcessor {
    /// The engine's spec-level image.
    pub open spec fn model(self) -> EngineModel {
        EngineModel {
            arp: self.arpeggiator,
            events: self.midi_events@,
            current: self.current_note_held,
            held: self.notes_held@,
            chord: self.generated_chord@,
        }
    }

    /// The engine's invariant: every tracked pitch is a MIDI pitch; the
    /// rotation index points into the chord (or rests at zero while there
    /// is none); the current held note, when present, is the last element
    /// of the stack; and an empty stack means no current note and no
    /// chord.
    pub open spec fn wf(self) -> bool {
        &&& self.arpeggiator.wf()
        &&& forall|i: int|
            0 <= i < self.notes_held.len() ==> (#[trigger] self.notes_held[i]).note <= 127
        &&& match self.current_note_held.note {
            Some(n) => n <= 127,
            None => true,
        }
        &&& forall|i: int|
            0 <= i < self.generated_chord.len() ==> (#[trigger] self.generated_chord[i]).note
                <= 127
        &&& (self.generated_chord.len() > 0 ==> self.arpeggiator.current_index
            < self.generated_chord.len())
        &&& (self.generated_chord.len() == 0 ==> self.arpeggiator.current_index == 0)
        &&& (self.notes_held.len() == 0 ==> self.current_note_held.note is None
            && self.generated_chord.len() == 0)
        &&& (self.notes_held.len() > 0 ==> self.current_note_held == note_state_of(
            self.notes_held@.last(),
        ))
    }

    pub fn new() -> (r: Self)
        ensures
            r.model() == initial_engine_model(),
            r.wf(),
    {
        MidiProcessor {
            arpeggiator: Arpeggiator::new(),
            midi_events: Vec::new(),
            current_note_held: NoteState::default(),
            notes_held: Vec::new(),
            generated_chord: Vec::new(),
        }
    }

    /// Forgets the events already handed out; the musical state stays.
    pub fn clear_events(&mut self)
        ensures
            final(self).model() == (EngineModel { events: Seq::empty(), ..old(self).model() }),
            old(self).wf() ==> final(self).wf(),
    {
        self.midi_events.clear();
    }

    /// The events the block produced so far, in emission order.
    pub fn get_events(&self) -> (r: &Vec<NoteEvent>)
        ensures
            r@ == self.model().events,
    {
        &self.midi_events
    }

    /// Appends the note-offs that silence the generated chord,
    /// unconditionally.
    fn emit_chord_off(&mut self, velocity: u32, timing: u32)
        ensures
            final(self).model() == (EngineModel {
                events: old(self).model().events + off_events(
                    old(self).generated_chord@,
                    velocity,
                    timing,
                ),
                ..old(self).model()
            }),
            *final(self) == (MidiProcessor { midi_events: final(self).midi_events, ..*old(self) }),
            old(self).wf() ==> final(self).wf(),
    {
        let mut i: usize = 0;
        while i < self.generated_chord.len()
            invariant
                i <= self.generated_chord.len(),
                *self == (MidiProcessor { midi_events: self.midi_events, ..*old(self) }),
                self.midi_events@ == old(self).midi_events@ + off_events(
                    old(self).generated_chord@.take(i as int),
                    velocity,
                    timing,
                ),
            decreases self.generated_chord.len() - i,
        {
            let g = self.generated_chord[i];
            self.midi_events.push(
                NoteEvent::NoteOff { note: g.note, channel: g.channel, velocity, timing },
            );
            proof {
                assert(self.midi_events@ =~= old(self).midi_events@ + off_events(
                    old(self).generated_chord@.take(i + 1),
                    velocity,
                    timing,
                ));
            }
            i += 1;
        }
        proof {
            assert(old(self).generated_chord@.take(self.generated_chord@.len() as int) =~= old(
                self,
            ).generated_chord@);
        }
    }

    /// Appends the note-ons that sound the generated chord,
    /// unconditionally.
    fn emit_chord_on(&mut self, timing: u32)
        ensures
            final(self).model() == (EngineModel {
                events: old(self).model().events + on_events(old(self).generated_chord@, timing),
                ..old(self).model()
            }),
            *final(self) == (MidiProcessor { midi_events: final(self).midi_events, ..*old(self) }),
            old(self).wf() ==> final(self).wf(),
    {
        let mut i: usize = 0;
        while i < self.generated_chord.len()
            invariant
                i <= self.generated_chord.len(),
                *self == (MidiProcessor { midi_events: self.midi_events, ..*old(self) }),
                self.midi_events@ == old(self).midi_events@ + on_events(
                    old(self).generated_chord@.take(i as int),
                    timing,
                ),
            decreases self.generated_chord.len() - i,
        {
            let g = self.generated_chord[i];
            self.midi_events.push(
                NoteEvent::NoteOn {
                    note: g.note,
                    channel: g.channel,
                    velocity: g.velocity,
                    timing,
                },
            );
            proof {
                assert(self.midi_events@ =~= old(self).midi_events@ + on_events(
                    old(self).generated_chord@.take(i + 1),
                    timing,
                ));
            }
            i += 1;
        }
        proof {
            assert(old(self).generated_chord@.take(self.generated_chord@.len() as int) =~= old(
                self,
            ).generated_chord@);
        }
    }

    /// Plays the generated chord at `timing` — in chord mode only; while
    /// the arpeggiator is on, its clock does the sounding.
    fn play_chord(&mut self, params: &MidiTransposerParams, timing: u32)
        ensures
            final(self).model() == (EngineModel {
                events: old(self).model().events + play_events(
                    *params,
                    old(self).generated_chord@,
                    timing,
                ),
                ..old(self).model()
            }),
            *final(self) == (MidiProcessor { midi_events: final(self).midi_events, ..*old(self) }),
            old(self).wf() ==> final(self).wf(),
    {
        if params.arp.activated {
            return ;
        }
        self.emit_chord_on(timing);
    }

    /// Stops the generated chord at `timing` with the release velocity —
    /// in chord mode only.
    fn stop_chord(&mut self, params: &MidiTransposerParams, velocity: u32, timing: u32)
        ensures
            final(self).model() == (EngineModel {
                events: old(self).model().events + stop_events(
                    *params,
                    old(self).generated_chord@,
                    velocity,
                    timing,
                ),
                ..old(self).model()
            }),
            *final(self) == (MidiProcessor { midi_events: final(self).midi_events, ..*old(self) }),
            old(self).wf() ==> final(self).wf(),
    {
        if params.arp.activated {
            return ;
        }
        self.emit_chord_off(velocity, timing);
    }

    /// Rebuilds the generated chord for `note_info` from the parameters.
    fn build_chord(&mut self, params: &MidiTransposerParams, note_info: &NoteInfo)
        requires
            params.wf(),
            note_info.note <= 127,
        ensures
            final(self).model() == (EngineModel {
                chord: chord_note_infos(*params, *note_info),
                ..old(self).model()
            }),
            *final(self) == (MidiProcessor {
                generated_chord: final(self).generated_chord,
                ..*old(self)
            }),
            forall|i: int|
                0 <= i < final(self).generated_chord.len()
                    ==> (#[trigger] final(self).generated_chord[i]).note <= 127,
    {
        self.generated_chord.clear();
        let chord = ChordProcessor::build_chord(params, note_info);
        proof {
            crate::chord_processor::lemma_chord_range_and_distinct(*params, *note_info);
        }
        let mut i: usize = 0;
        while i < chord.notes.len()
            invariant
                i <= chord.notes.len(),
                chord.notes@ == chord_seq(*params, *note_info),
                forall|j: int| 0 <= j < chord.notes.len() ==> (#[trigger] chord.notes[j]) <= 127,
                *self == (MidiProcessor { generated_chord: self.generated_chord, ..*old(self) }),
                self.generated_chord@ == chord_note_infos(*params, *note_info).take(i as int),
            decreases chord.notes.len() - i,
        {
            let p = chord.notes[i];
            self.generated_chord.push(
                NoteInfo {
                    note: p,
                    channel: note_info.channel,
                    velocity: note_info.velocity,
                    timing: note_info.timing,
                },
            );
            proof {
                assert(self.generated_chord@ =~= chord_note_infos(*params, *note_info).take(
                    i + 1,
                ));
            }
            i += 1;
        }
        proof {
            assert(chord_note_infos(*params, *note_info).take(
                chord_note_infos(*params, *note_info).len() as int,
            ) =~= chord_note_infos(*params, *note_info));
        }
    }

    /// Builds and plays the chord for `note_info`, makes it the current
    /// held note and restarts the arpeggio rotation. The caller has
    /// already put `note_info` on top of the stack.
    fn build_and_play_chord(&mut self, params: &MidiTransposerParams, note_info: &NoteInfo)
        requires
            old(self).arpeggiator.wf(),
            forall|i: int|
                0 <= i < old(self).notes_held.len() ==> (#[trigger] old(self).notes_held[i]).note
                    <= 127,
            old(self).notes_held@.len() > 0,
            old(self).notes_held@.last() == *note_info,
            params.wf(),
            note_info.note <= 127,
        ensures
            final(self).wf(),
            final(self).model() == (EngineModel {
                arp: Arpeggiator { current_index: 0, ..old(self).model().arp },
                events: old(self).model().events + play_events(
                    *params,
                    chord_note_infos(*params, *note_info),
                    note_info.timing,
                ),
                current: note_state_of(*note_info),
                chord: chord_note_infos(*params, *note_info),
                ..old(self).model()
            }),
    {
        self.build_chord(params, note_info);
        self.play_chord(params, note_info.timing);
        self.current_note_held = NoteState::new(
            note_info.note,
            note_info.channel,
            note_info.velocity,
            note_info.timing,
        );
        self.arpeggiator.restart();
    }

    /// A note was pressed; see `model_note_on`.
    pub fn process_note_on(&mut self, params: &MidiTransposerParams, note_info: &NoteInfo)
        requires
            old(self).wf(),
            params.wf(),
            note_info.note <= 127,
        ensures
            final(self).wf(),
            final(self).model() == model_note_on(*params, old(self).model(), *note_info),
    {
        self.notes_held.push(*note_info);
        proof {
            assert forall|i: int|
                0 <= i < self.notes_held.len() implies (#[trigger] self.notes_held[i]).note
                <= 127 by {
                if i < old(self).notes_held.len() {
                    assert(self.notes_held[i] == old(self).notes_held[i]);
                } else {
                    assert(self.notes_held[i] == *note_info);
                }
            }
        }
        let stop_prev = match self.current_note_held.note {
            Some(n) => n != note_info.note,
            None => false,
        };
        if stop_prev {
            self.stop_chord(params, note_info.velocity, note_info.timing);
        }
        self.build_and_play_chord(params, note_info);
    }

    /// A note was released; see `model_note_off`.
    pub fn process_note_off(&mut self, params: &MidiTransposerParams, note_info: &NoteInfo)
        requires
            old(self).wf(),
            params.wf(),
            note_info.note <= 127,
        ensures
            final(self).wf(),
            final(self).model() == model_note_off(*params, old(self).model(), *note_info),
    {
        self.remove_held(note_info.note);
        proof {
            lemma_remove_pitch_bounded(old(self).notes_held@, note_info.note);
            // A release of a pitch other than the current one cannot empty
            // the stack: the current note sits on top and survives.
            match old(self).current_note_held.note {
                Some(c) => {
                    if c != note_info.note {
                        let held0 = old(self).notes_held@;
                        assert(held0.len() > 0);
                        assert(held0.last().note == c);
                        assert(remove_pitch(held0, note_info.note) == remove_pitch(
                            held0.drop_last(),
                            note_info.note,
                        ) + seq![held0.last()]);
                        assert(self.notes_held@.last() == held0.last());
                    }
                },
                None => {
                    assert(old(self).notes_held@.len() == 0);
                    assert(self.notes_held@.len() == 0);
                },
            }
        }
        let was_current = match self.current_note_held.note {
            Some(n) => n == note_info.note,
            None => false,
        };
        if was_current {
            self.stop_chord(params, note_info.velocity, note_info.timing);
            if self.notes_held.len() == 0 {
                self.current_note_held.reset();
                match self.arpeggiator.note_info.note {
                    Some(sounding) => {
                        self.midi_events.push(
                            NoteEvent::NoteOff {
                                note: sounding,
                                channel: self.arpeggiator.note_info.channel,
                                velocity: note_info.velocity,
                                timing: note_info.timing,
                            },
                        );
                        proof {
                            assert(self.midi_events@ =~= old(self).midi_events@ + stop_events(
                                *params,
                                old(self).generated_chord@,
                                note_info.velocity,
                                note_info.timing,
                            ) + arp_off_events(
                                old(self).arpeggiator.note_info,
                                note_info.velocity,
                                note_info.timing,
                            ));
                        }
                    },
                    None => {
                        proof {
                            assert(self.midi_events@ =~= old(self).midi_events@ + stop_events(
                                *params,
                                old(self).generated_chord@,
                                note_info.velocity,
                                note_info.timing,
                            ) + arp_off_events(
                                old(self).arpeggiator.note_info,
                                note_info.velocity,
                                note_info.timing,
                            ));
                        }
                    },
                }
                self.arpeggiator.reset();
                self.generated_chord.clear();
            } else {
                let last = self.notes_held[self.notes_held.len() - 1];
                self.build_and_play_chord(params, &last);
            }
        }
    }

    /// Fires one arpeggio trigger at `timing`; see `model_arp_trigger`.
    fn play_arp_note(&mut self, timing: u32)
        requires
            old(self).wf(),
        ensures
            final(self).wf(),
            final(self).model() == model_arp_trigger(old(self).model(), timing),
    {
        match self.arpeggiator.note_info.note {
            Some(sounding) => {
                self.midi_events.push(
                    NoteEvent::NoteOff {
                        note: sounding,
                        channel: self.arpeggiator.note_info.channel,
                        velocity: self.arpeggiator.note_info.velocity,
                        timing,
                    },
                );
            },
            None => {},
        }
        proof {
            assert(self.midi_events@ =~= old(self).midi_events@ + arp_off_events(
                old(self).arpeggiator.note_info,
                old(self).arpeggiator.note_info.velocity,
                timing,
            ));
        }
        if self.generated_chord.len() > 0 {
            let g = self.generated_chord[self.arpeggiator.current_index];
            self.arpeggiator.note_info = NoteState::new(g.note, g.channel, g.velocity, g.timing);
            self.midi_events.push(
                NoteEvent::NoteOn {
                    note: g.note,
                    channel: g.channel,
                    velocity: g.velocity,
                    timing,
                },
            );
            self.arpeggiator.current_index = (self.arpeggiator.current_index + 1)
                % self.generated_chord.len();
            proof {
                assert(self.midi_events@ =~= old(self).midi_events@ + arp_off_events(
                    old(self).arpeggiator.note_info,
                    old(self).arpeggiator.note_info.velocity,
                    timing,
                ) + seq![
                    NoteEvent::NoteOn {
                        note: g.note,
                        channel: g.channel,
                        velocity: g.velocity,
                        timing,
                    },
                ]);
            }
        } else {
            // Nothing started: leave the sounding slot unset, so the note
            // just stopped is not stopped a second time.
            self.arpeggiator.note_info.reset();
        }
    }

    /// Runs the free-running clock over the block the arpeggiator was
    /// given and fires each trigger; see `model_arp_free`.
    fn arpeggiate_free(&mut self, params: &MidiTransposerParams)
        requires
            old(self).wf(),
            params.wf(),
            old(self).arpeggiator.num_samples >= 1,
        ensures
            final(self).wf(),
            final(self).model() == model_arp_free(*params, old(self).model()),
    {
        let mut timings: Vec<u32> = Vec::new();
        self.arpeggiator.arpeggiate_free(params.arp.speed, &mut timings);
        let ghost m1 = EngineModel { arp: self.arpeggiator, ..old(self).model() };
        proof {
            assert(self.model() == m1);
        }
        let mut i: usize = 0;
        while i < timings.len()
            invariant
                i <= timings.len(),
                self.wf(),
                self.model() == model_arp_triggers(m1, timings@.take(i as int)),
            decreases timings.len() - i,
        {
            let t = timings[i];
            self.play_arp_note(t);
            proof {
                lemma_arp_triggers_snoc(m1, timings@.take(i + 1));
                assert(timings@.take(i + 1).drop_last() =~= timings@.take(i as int));
                assert(timings@.take(i + 1).last() == timings@[i as int]);
            }
            i += 1;
        }
        proof {
            assert(timings@.take(timings@.len() as int) =~= timings@);
        }
    }

    /// Runs the host-synced clock over the block the arpeggiator was
    /// given and fires each trigger; see `model_arp_sync`.
    fn arpeggiate_sync(&mut self, params: &MidiTransposerParams, beat_position: u64)
        requires
            old(self).wf(),
            params.wf(),
            old(self).arpeggiator.num_samples >= 1,
            samples_per_beat_spec(old(self).arpeggiator.samplerate, old(self).arpeggiator.tempo)
                >= 1,
            beat_position <= 0x1000_0000_0000_0000,
        ensures
            final(self).wf(),
            final(self).model() == model_arp_sync(
                *params,
                old(self).model(),
                beat_position as int,
            ),
    {
        let mut timings: Vec<u32> = Vec::new();
        self.arpeggiator.arpeggiate_sync(beat_position, &mut timings);
        let ghost m1 = EngineModel { arp: self.arpeggiator, ..old(self).model() };
        proof {
            assert(self.model() == m1);
        }
        let mut i: usize = 0;
        while i < timings.len()
            invariant
                i <= timings.len(),
                self.wf(),
                self.model() == model_arp_triggers(m1, timings@.take(i as int)),
            decreases timings.len() - i,
        {
            let t = timings[i];
            self.play_arp_note(t);
            proof {
                lemma_arp_triggers_snoc(m1, timings@.take(i + 1));
                assert(timings@.take(i + 1).drop_last() =~= timings@.take(i as int));
                assert(timings@.take(i + 1).last() == timings@[i as int]);
            }
            i += 1;
        }
        proof {
            assert(timings@.take(timings@.len() as int) =~= timings@);
        }
    }

    /// One arpeggiator pass over a block of `samples` samples; see
    /// `model_process_arp`. The synced clock runs only when the
    /// parameters ask for sync, the host is playing with a known tempo
    /// and the timing is not degenerate; otherwise the free clock runs.
    pub fn process_arp(&mut self, params: &MidiTransposerParams, samples: u32, transport: &Transport)
        requires
            old(self).wf(),
            params.wf(),
            samples >= 1,
            transport.wf(),
        ensures
            final(self).wf(),
            final(self).model() == model_process_arp(
                *params,
                old(self).model(),
                samples,
                *transport,
            ),
    {
        self.arpeggiator.set_process_info(transport.tempo, samples, &params.arp);
        let tempo_now: u64 = match self.arpeggiator.tempo {
            Some(t) => t,
            None => 60_000,
        };
        let spb: u64 = self.arpeggiator.samplerate as u64 * 60_000 / tempo_now;
        let tempo_known = transport.tempo.is_some();
        if params.arp.synced && transport.playing && tempo_known && spb >= 1 {
            let bp: u64 = match transport.pos_beats {
                Some(b) => b,
                None => 0,
            };
            self.arpeggiate_sync(params, bp);
        } else {
            self.arpeggiate_free(params);
        }
    }

    /// The arpeggiator was switched on or off; see `model_arp_toggled`.
    pub fn arp_toggled(&mut self, on_off: bool)
        requires
            old(self).wf(),
        ensures
            final(self).wf(),
            final(self).model() == model_arp_toggled(old(self).model(), on_off),
    {
        if on_off {
            if self.current_note_held.is_active() {
                self.emit_chord_off(0, 0);
            }
        } else {
            match self.arpeggiator.note_info.note {
                Some(sounding) => {
                    self.midi_events.push(
                        NoteEvent::NoteOff {
                            note: sounding,
                            channel: self.arpeggiator.note_info.channel,
                            velocity: 0,
                            timing: 0,
                        },
                    );
                },
                None => {},
            }
            proof {
                assert(self.midi_events@ =~= old(self).midi_events@ + arp_off_events(
                    old(self).arpeggiator.note_info,
                    0,
                    0,
                ));
            }
            self.arpeggiator.reset();
            if self.current_note_held.is_active() {
                self.emit_chord_on(0);
            }
        }
    }

    /// Consumes one incoming event; see `model_process_event`.
    pub fn process_event(&mut self, params: &MidiTransposerParams, event: &NoteEvent)
        requires
            old(self).wf(),
            params.wf(),
            event_note(*event) <= 127,
        ensures
            final(self).wf(),
            final(self).model() == model_process_event(*params, old(self).model(), *event),
    {
        let (note, channel, velocity, timing) = match *event {
            NoteEvent::NoteOn { note, channel, velocity, timing } => (
                note,
                channel,
                velocity,
                timing,
            ),
            NoteEvent::NoteOff { note, channel, velocity, timing } => (
                note,
                channel,
                velocity,
                timing,
            ),
        };
        if params.in_channel > 0 && channel != params.in_channel - 1 {
            self.midi_events.push(*event);
            return ;
        }
        let out_ch: u8 = if params.out_channel > 0 {
            params.out_channel - 1
        } else {
            channel
        };
        let note_info = NoteInfo::new(note, out_ch, velocity, timing);
        match *event {
            NoteEvent::NoteOn { .. } => self.process_note_on(params, &note_info),
            NoteEvent::NoteOff { .. } => self.process_note_off(params, &note_info),
        }
    }

    /// One whole processing block; see `model_process_block`. The reset
    /// signal is the cross-thread "arpeggiator on/off changed" flag,
    /// checked once per block by the caller.
    pub fn process_block(
        &mut self,
        params: &MidiTransposerParams,
        events: &Vec<NoteEvent>,
        samples: u32,
        transport: &Transport,
        arp_reset_signal: bool,
    )
        requires
            old(self).wf(),
            params.wf(),
            samples >= 1,
            transport.wf(),
            forall|i: int| 0 <= i < events.len() ==> event_note(#[trigger] events[i]) <= 127,
        ensures
            final(self).wf(),
            final(self).model() == model_process_block(
                *params,
                old(self).model(),
                events@,
                samples,
                *transport,
                arp_reset_signal,
            ),
    {
        if arp_reset_signal {
            self.arp_toggled(params.arp.activated);
        }
        let ghost m1 = self.model();
        let mut i: usize = 0;
        while i < events.len()
            invariant
                i <= events.len(),
                self.wf(),
                params.wf(),
                forall|j: int| 0 <= j < events.len() ==> event_note(#[trigger] events[j]) <= 127,
                self.model() == model_process_events(*params, m1, events@.take(i as int)),
            decreases events.len() - i,
        {
            let e = events[i];
            self.process_event(params, &e);
            proof {
                lemma_process_events_snoc(*params, m1, events@.take(i + 1));
                assert(events@.take(i + 1).drop_last() =~= events@.take(i as int));
                assert(events@.take(i + 1).last() == events@[i as int]);
            }
            i += 1;
        }
        proof {
            assert(events@.take(events@.len() as int) =~= events@);
        }
        if params.arp.activated {
            self.process_arp(params, samples, transport);
        }
    }

    /// Takes every record of `pitch` out of the held-note stack.
    fn remove_held(&mut self, pitch: u8)
        ensures
            final(self).model() == (EngineModel {
                held: remove_pitch(old(self).notes_held@, pitch),
                ..old(self).model()
            }),
            *final(self) == (MidiProcessor { notes_held: final(self).notes_held, ..*old(self) }),
    {
        let mut kept: Vec<NoteInfo> = Vec::new();
        let mut i: usize = 0;
        while i < self.notes_held.len()
            invariant
                i <= self.notes_held.len(),
                *self == *old(self),
                kept@ == remove_pitch(self.notes_held@.take(i as int), pitch),
            decreases self.notes_held.len() - i,
        {
            let ni = self.notes_held[i];
            if ni.note != pitch {
                kept.push(ni);
            }
            proof {
                let taken = self.notes_held@.take(i + 1);
                assert(taken.drop_last() =~= self.notes_held@.take(i as int));
                assert(taken.last() == self.notes_held@[i as int]);
                assert(kept@ =~= remove_pitch(taken, pitch));
            }
            i += 1;
        }
        proof {
            assert(self.notes_held@.take(self.notes_held@.len() as int) =~= self.notes_held@);
        }
        self.notes_held = kept;
    }
}

/// Monophonic priority: from an empty stack, pressing `a` then `b` (two
/// different pitches) and releasing `b` makes `a` the current note again,
/// with `a`'s chord rebuilt and only `a` on the stack. Releasing `a`
/// first instead leaves `b` current with its chord and events untouched —
/// only the stack shrinks to `b`.
pub proof fn lemma_monophonic_priority(
    params: MidiTransposerParams,
    m0: EngineModel,
    a: NoteInfo,
    b: NoteInfo,
)
    requires
        m0.held.len() == 0,
        a.note != b.note,
    ensures
        ({
            let m2 = model_note_on(params, model_note_on(params, m0, a), b);
            &&& model_note_off(params, m2, b).current == note_state_of(a)
            &&& model_note_off(params, m2, b).chord == chord_note_infos(params, a)
            &&& model_note_off(params, m2, b).held =~= seq![a]
            &&& model_note_off(params, m2, a).current == m2.current
            &&& model_note_off(params, m2, a).chord == m2.chord
            &&& model_note_off(params, m2, a).events == m2.events
            &&& model_note_off(params, m2, a).held =~= seq![b]
        }),
{
    let m1 = model_note_on(params, m0, a);
    let m2 = model_note_on(params, m1, b);
    assert(m1.held =~= seq![a]);
    assert(m2.held =~= seq![a, b]);
    let only_a = remove_pitch(m2.held, b.note);
    assert(only_a =~= seq![a]) by {
        assert(m2.held.drop_last() =~= seq![a]);
        assert(remove_pitch(seq![a], b.note) =~= seq![a]) by {
            assert(seq![a].drop_last() =~= Seq::<NoteInfo>::empty());
            assert(remove_pitch(Seq::<NoteInfo>::empty(), b.note) =~= Seq::<NoteInfo>::empty());
        }
        assert(remove_pitch(m2.held, b.note) == remove_pitch(m2.held.drop_last(), b.note));
    }
    assert(only_a.last() == a);
    let only_b = remove_pitch(m2.held, a.note);
    assert(only_b =~= seq![b]) by {
        assert(m2.held.drop_last() =~= seq![a]);
        assert(remove_pitch(seq![a], a.note) =~= Seq::<NoteInfo>::empty()) by {
            assert(seq![a].drop_last() =~= Seq::<NoteInfo>::empty());
            assert(remove_pitch(Seq::<NoteInfo>::empty(), a.note) =~= Seq::<NoteInfo>::empty());
        }
    }
    assert(m2.current == note_state_of(b));
    assert(m2.current.note != Some(a.note));
}

/// Stack emptiness: the release that empties the stack clears everything
/// at once — the stack, the current note, the chord — and resets the
/// arpeggiator; and a release reaching an engine already empty and silent
/// changes nothing but the (empty) stack and emits no event at all, so
/// the stop happens exactly once however the held notes were released.
pub proof fn lemma_stack_emptiness(params: MidiTransposerParams, m: EngineModel, n: NoteInfo)
    ensures
        (remove_pitch(m.held, n.note).len() == 0 && m.current.note == Some(n.note)) ==> ({
            let m2 = model_note_off(params, m, n);
            &&& m2.held.len() == 0
            &&& m2.current == inactive_note_state()
            &&& m2.chord =~= Seq::<NoteInfo>::empty()
            &&& m2.arp == reset_arpeggiator(m.arp)
        }),
        (m.held.len() == 0 && m.current == inactive_note_state()) ==> ({
            let m2 = model_note_off(params, m, n);
            &&& m2 == (EngineModel { held: remove_pitch(m.held, n.note), ..m })
            &&& m2.held.len() == 0
            &&& m2.events == m.events
        }),
{
    if m.held.len() == 0 {
        assert(remove_pitch(m.held, n.note).len() == 0);
    }
}

/// Removing a pitch keeps every remaining pitch in the MIDI range.
proof fn lemma_remove_pitch_bounded(held: Seq<NoteInfo>, pitch: u8)
    requires
        forall|i: int| 0 <= i < held.len() ==> (#[trigger] held[i]).note <= 127,
    ensures
        forall|i: int|
            0 <= i < remove_pitch(held, pitch).len() ==> (#[trigger] remove_pitch(held, pitch)[i]).note
                <= 127,
    decreases held.len(),
{
    if held.len() > 0 {
        assert(forall|i: int|
            0 <= i < held.drop_last().len() ==> (#[trigger] held.drop_last()[i]).note <= 127);
        lemma_remove_pitch_bounded(held.drop_last(), pitch);
        let out = remove_pitch(held, pitch);
        let pre = remove_pitch(held.drop_last(), pitch);
        assert forall|i: int| 0 <= i < out.len() implies (#[trigger] out[i]).note <= 127 by {
            if i < pre.len() {
                assert(out[i] == pre[i]);
            } else {
                assert(out[i] == held.last());
            }
        }
    }
}

} // verus!
