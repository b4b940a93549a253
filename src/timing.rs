//! The tick-to-beat state machine that turns a merged offset sequence into
//! beat-timed notes and a tempo/meter timeline.
use vstd::prelude::*;
use crate::chart::{BeatTime, Bpmchange, Note, RootView};
use crate::config::{lane_of, lane_index};
use crate::event::{EventKind, OffsetEvent, Timing};

verus! {

/// Microseconds per quarter note at 120 beats per minute.
pub const DEFAULT_MICROS_PER_BEAT: u32 = 500_000;

/// Beats per bar (and metronome offset) of a first entry made by a tempo
/// event.
pub const DEFAULT_BEATS_PER_BAR: i64 = 4;

/// The state of the conversion of one track.
pub struct ConvState {
    /// Ticks since the start of the track.
    pub ticks_elapsed: int,
    /// Ticks per beat under the active tempo; zero before the first tempo
    /// event, and for timecode timing.
    pub beat_len: int,
    /// Ticks counted towards the beat position; the position in beats is
    /// `beat_ticks / beat_len`.
    pub beat_ticks: int,
    pub notes: Seq<Note>,
    pub changes: Seq<Bpmchange>,
}

/// The resolution that beat positions are expressed in.
pub open spec fn ticks_per_beat_of(timing: Timing) -> u64 {
    match timing {
        Timing::Metrical(m) => m as u64,
        Timing::Timecode(..) => 0,
    }
}

/// The state before the first event.
pub open spec fn initial_state() -> ConvState {
    ConvState {
        ticks_elapsed: 0,
        beat_len: 0,
        beat_ticks: 0,
        notes: Seq::empty(),
        changes: Seq::empty(),
    }
}

/// Records a tempo at `time`: overwrites the last entry's tempo when that
/// entry is at the same time, else appends an entry that carries the last
/// entry's meter forward (4/4 for the first entry).
pub open spec fn upsert_tempo_spec(changes: Seq<Bpmchange>, time: BeatTime, micros: u32) -> Seq<Bpmchange> {
    if changes.len() == 0 {
        seq![
            Bpmchange {
                micros_per_beat: micros,
                time,
                beats_per_bar: DEFAULT_BEATS_PER_BAR,
                metronome_offset: DEFAULT_BEATS_PER_BAR,
            },
        ]
    } else if changes.last().time == time {
        changes.update(changes.len() - 1, Bpmchange { micros_per_beat: micros, ..changes.last() })
    } else {
        changes.push(Bpmchange { micros_per_beat: micros, time, ..changes.last() })
    }
}

/// Records a meter at `time`: beats per bar and metronome offset both become
/// the numerator. Overwrites the last entry when it is at the same time,
/// else appends an entry that carries the last tempo forward (120 beats per
/// minute for the first entry).
pub open spec fn upsert_meter_spec(changes: Seq<Bpmchange>, time: BeatTime, numerator: u8) -> Seq<Bpmchange> {
    if changes.len() == 0 {
        seq![
            Bpmchange {
                micros_per_beat: DEFAULT_MICROS_PER_BEAT,
                time,
                beats_per_bar: numerator as i64,
                metronome_offset: numerator as i64,
            },
        ]
    } else if changes.last().time == time {
        changes.update(
            changes.len() - 1,
            Bpmchange {
                beats_per_bar: numerator as i64,
                metronome_offset: numerator as i64,
                ..changes.last()
            },
        )
    } else {
        changes.push(
            Bpmchange {
                time,
                beats_per_bar: numerator as i64,
                metronome_offset: numerator as i64,
                ..changes.last()
            },
        )
    }
}

/// The beat ticks after advancing by `delta`: they grow only once a beat
/// length is known.
pub open spec fn advanced_beat_ticks(s: ConvState, delta: u64) -> int {
    if s.beat_len != 0 {
        s.beat_ticks + delta
    } else {
        s.beat_ticks
    }
}

/// One transition of the state machine.
#[verifier::opaque]
pub open spec fn step(s: ConvState, e: OffsetEvent, timing: Timing, map: Seq<u8>) -> ConvState {
    let beat_ticks = advanced_beat_ticks(s, e.delta);
    let time = BeatTime { ticks: beat_ticks as u64, ticks_per_beat: ticks_per_beat_of(timing) };
    let s1 = ConvState { ticks_elapsed: s.ticks_elapsed + e.delta, beat_ticks, ..s };
    match e.event.kind {
        EventKind::NoteOn { channel: _, key, vel } => {
            if vel != 0 {
                ConvState {
                    notes: s1.notes.push(
                        Note {
                            time,
                            line_index: lane_of(map, key) as i64,
                            line_layer: 1,
                            type_field: 0,
                            cut_direction: 1,
                        },
                    ),
                    ..s1
                }
            } else {
                s1
            }
        },
        EventKind::Tempo(micros) => ConvState {
            beat_len: match timing {
                Timing::Metrical(m) => m as int,
                Timing::Timecode(..) => s1.beat_len,
            },
            changes: upsert_tempo_spec(s1.changes, time, micros),
            ..s1
        },
        EventKind::TimeSignature(numerator, _, _, _) => ConvState {
            changes: upsert_meter_spec(s1.changes, time, numerator),
            ..s1
        },
        _ => s1,
    }
}

/// The state after all of `offsets`.
pub open spec fn run<'a>(offsets: Seq<OffsetEvent<'a>>, timing: Timing, map: Seq<u8>) -> ConvState
    decreases offsets.len(),
{
    if offsets.len() == 0 {
        initial_state()
    } else {
        step(run(offsets.drop_last(), timing, map), offsets.last(), timing, map)
    }
}

/// The chart that a final state yields.
pub open spec fn chart_of(s: ConvState) -> RootView {
    RootView { version: seq!['1'], time: 0, bpmchanges: s.changes, notes: s.notes }
}

/// The sum of the deltas of a sequence of offsets.
pub open spec fn offset_sum<'a>(offsets: Seq<OffsetEvent<'a>>) -> int
    decreases offsets.len(),
{
    if offsets.len() == 0 {
        0
    } else {
        offset_sum(offsets.drop_last()) + offsets.last().delta
    }
}

/// Sums of deltas of prefixes never decrease.
pub proof fn lemma_offset_sum_prefix<'a>(offsets: Seq<OffsetEvent<'a>>, i: int)
    requires
        0 <= i <= offsets.len(),
    ensures
        offset_sum(offsets.take(i)) <= offset_sum(offsets),
    decreases offsets.len() - i,
{
    if i < offsets.len() {
        lemma_offset_sum_prefix(offsets, i + 1);
        assert(offsets.take(i + 1).drop_last() =~= offsets.take(i));
    } else {
        assert(offsets.take(i) =~= offsets);
    }
}

/// The beat position never moves backwards: after the first `i` events of a
/// pass it is not past where it stands after the first `j`, for `i <= j`.
/// (All positions of one pass share the resolution `ticks_per_beat_of(timing)`.)
pub proof fn lemma_beat_position_monotone<'a>(
    offsets: Seq<OffsetEvent<'a>>,
    timing: Timing,
    map: Seq<u8>,
    i: int,
    j: int,
)
    requires
        0 <= i <= j <= offsets.len(),
    ensures
        run(offsets.take(i), timing, map).beat_ticks <= run(offsets.take(j), timing, map).beat_ticks,
    decreases j - i,
{
    if i < j {
        lemma_beat_position_monotone(offsets, timing, map, i, j - 1);
        assert(offsets.take(j).drop_last() =~= offsets.take(j - 1));
        lemma_step_beat_ticks(run(offsets.take(j - 1), timing, map), offsets.take(j).last(), timing, map);
    }
}

/// One transition moves the beat ticks to `advanced_beat_ticks` and the
/// tick count by the event's delta.
pub proof fn lemma_step_beat_ticks<'a>(s: ConvState, e: OffsetEvent<'a>, timing: Timing, map: Seq<u8>)
    ensures
        step(s, e, timing, map).beat_ticks == advanced_beat_ticks(s, e.delta),
        step(s, e, timing, map).ticks_elapsed == s.ticks_elapsed + e.delta,
        advanced_beat_ticks(s, e.delta) >= s.beat_ticks,
{
    reveal(step);
    match e.event.kind {
        EventKind::NoteOn { .. } => {},
        EventKind::Tempo(_) => {},
        EventKind::TimeSignature(..) => {},
        _ => {},
    }
}

/// Two tempo changes recorded one after the other: at the same beat time
/// they collapse into one entry that holds the later tempo; at different
/// beat times the second is appended after the first, which keeps its tempo.
pub proof fn lemma_tempo_upsert(
    changes: Seq<Bpmchange>,
    first_time: BeatTime,
    first_micros: u32,
    second_time: BeatTime,
    second_micros: u32,
)
    ensures
        ({
            let c1 = upsert_tempo_spec(changes, first_time, first_micros);
            let c2 = upsert_tempo_spec(c1, second_time, second_micros);
            &&& c1.len() >= 1
            &&& c1.last().time == first_time
            &&& c1.last().micros_per_beat == first_micros
            &&& c2.last().time == second_time
            &&& c2.last().micros_per_beat == second_micros
            &&& first_time == second_time ==> c2.len() == c1.len() && c2.drop_last() == c1.drop_last()
            &&& first_time != second_time ==> c2.len() == c1.len() + 1 && c2.drop_last() == c1
        }),
{
    let c1 = upsert_tempo_spec(changes, first_time, first_micros);
    let c2 = upsert_tempo_spec(c1, second_time, second_micros);
    if changes.len() > 0 && changes.last().time == first_time {
        assert(c1.drop_last() =~= changes.drop_last());
    }
    if first_time == second_time {
        assert(c2.drop_last() =~= c1.drop_last());
    } else {
        assert(c2.drop_last() =~= c1);
    }
}

/// A note-on event with velocity zero adds no note.
pub proof fn lemma_velocity_zero_adds_no_note<'a>(
    s: ConvState,
    e: OffsetEvent<'a>,
    timing: Timing,
    map: Seq<u8>,
)
    requires
        e.event.kind matches EventKind::NoteOn { vel, .. } && vel == 0,
    ensures
        step(s, e, timing, map).notes == s.notes,
{
    reveal(step);
}

/// Every note-on event with a non-zero velocity adds exactly one note, at
/// the current beat position, on the lane that the drum map gives its pitch.
pub proof fn lemma_note_on_adds_note<'a>(
    s: ConvState,
    e: OffsetEvent<'a>,
    timing: Timing,
    map: Seq<u8>,
)
    requires
        e.event.kind matches EventKind::NoteOn { vel, .. } && vel != 0,
    ensures
        ({
            let n = step(s, e, timing, map).notes;
            &&& n.drop_last() == s.notes
            &&& n.last().time.ticks == advanced_beat_ticks(s, e.delta) as u64
            &&& e.event.kind matches EventKind::NoteOn { key, .. } && n.last().line_index
                == lane_of(map, key) as i64
        }),
{
    reveal(step);
    assert(step(s, e, timing, map).notes.drop_last() =~= s.notes);
}

/// A note-on event whose pitch the drum map does not hold gives a note on
/// lane 0.
pub proof fn lemma_unmapped_pitch_on_lane_zero<'a>(
    s: ConvState,
    e: OffsetEvent<'a>,
    timing: Timing,
    map: Seq<u8>,
)
    requires
        e.event.kind matches EventKind::NoteOn { key, vel, .. } && vel != 0 && !map.contains(key),
    ensures
        step(s, e, timing, map).notes.last().line_index == 0,
{
    reveal(step);
    if let EventKind::NoteOn { key, .. } = e.event.kind {
        if exists|i: int| 0 <= i < map.len() && map[i] == key {
            let i = choose|i: int| 0 <= i < map.len() && map[i] == key;
            assert(map.contains(key));
        }
    }
}

/// What one transition does to the timeline.
pub proof fn lemma_step_changes<'a>(s: ConvState, e: OffsetEvent<'a>, timing: Timing, map: Seq<u8>)
    ensures
        ({
            let time = BeatTime {
                ticks: advanced_beat_ticks(s, e.delta) as u64,
                ticks_per_beat: ticks_per_beat_of(timing),
            };
            step(s, e, timing, map).changes == match e.event.kind {
                EventKind::Tempo(micros) => upsert_tempo_spec(s.changes, time, micros),
                EventKind::TimeSignature(numerator, _, _, _) => upsert_meter_spec(s.changes, time, numerator),
                _ => s.changes,
            }
        }),
{
    reveal(step);
}

/// Timeline entries share one resolution and are strictly ordered by time,
/// so no two entries share a time.
pub open spec fn changes_strictly_ordered(changes: Seq<Bpmchange>, ticks_per_beat: u64) -> bool {
    &&& forall|i: int| 0 <= i < changes.len() ==> (#[trigger] changes[i]).time.ticks_per_beat == ticks_per_beat
    &&& forall|i: int, j: int| 0 <= i < j < changes.len() ==> (#[trigger] changes[i]).time.ticks < (#[trigger] changes[j]).time.ticks
}

/// Over any pass whose ticks fit in a `u64`, the tempo timeline holds at
/// most one entry per beat time, in strictly increasing time order, and
/// none of them lies past the current beat position.
pub proof fn lemma_changes_strictly_ordered<'a>(offsets: Seq<OffsetEvent<'a>>, timing: Timing, map: Seq<u8>)
    requires
        offset_sum(offsets) <= u64::MAX,
    ensures
        changes_strictly_ordered(run(offsets, timing, map).changes, ticks_per_beat_of(timing)),
        run(offsets, timing, map).changes.len() > 0 ==> run(offsets, timing, map).changes.last().time.ticks
            <= run(offsets, timing, map).beat_ticks,
        0 <= run(offsets, timing, map).beat_ticks <= run(offsets, timing, map).ticks_elapsed,
        run(offsets, timing, map).ticks_elapsed == offset_sum(offsets),
    decreases offsets.len(),
{
    if offsets.len() > 0 {
        let rest = offsets.drop_last();
        lemma_changes_strictly_ordered(rest, timing, map);
        let s = run(rest, timing, map);
        let e = offsets.last();
        lemma_step_beat_ticks(s, e, timing, map);
        lemma_step_changes(s, e, timing, map);
        let c = s.changes;
        let bt = advanced_beat_ticks(s, e.delta);
        let time = BeatTime { ticks: bt as u64, ticks_per_beat: ticks_per_beat_of(timing) };
        let n = run(offsets, timing, map).changes;
        match e.event.kind {
            EventKind::Tempo(micros) => {
                assert(n == upsert_tempo_spec(c, time, micros));
                if c.len() > 0 && c.last().time != time {
                    assert(c.last().time.ticks < bt);
                    assert(forall|i: int| 0 <= i < c.len() ==> (#[trigger] c[i]).time.ticks <= c.last().time.ticks);
                }
            },
            EventKind::TimeSignature(numerator, _, _, _) => {
                assert(n == upsert_meter_spec(c, time, numerator));
                if c.len() > 0 && c.last().time != time {
                    assert(c.last().time.ticks < bt);
                    assert(forall|i: int| 0 <= i < c.len() ==> (#[trigger] c[i]).time.ticks <= c.last().time.ticks);
                }
            },
            _ => {},
        }
    }
}

/// Exec form of `upsert_tempo_spec`.
pub fn upsert_tempo(changes: &mut Vec<Bpmchange>, time: BeatTime, micros: u32)
    ensures
        final(changes)@ == upsert_tempo_spec(old(changes)@, time, micros),
{
    let n = changes.len();
    if n == 0 {
        changes.push(
            Bpmchange {
                micros_per_beat: micros,
                time,
                beats_per_bar: DEFAULT_BEATS_PER_BAR,
                metronome_offset: DEFAULT_BEATS_PER_BAR,
            },
        );
        assert(changes@ =~= upsert_tempo_spec(old(changes)@, time, micros));
    } else {
        let last = changes[n - 1];
        if last.time == time {
            changes.set(n - 1, Bpmchange { micros_per_beat: micros, ..last });
        } else {
            changes.push(Bpmchange { micros_per_beat: micros, time, ..last });
        }
    }
}

/// Exec form of `upsert_meter_spec`.
pub fn upsert_meter(changes: &mut Vec<Bpmchange>, time: BeatTime, numerator: u8)
    ensures
        final(changes)@ == upsert_meter_spec(old(changes)@, time, numerator),
{
    let n = changes.len();
    let beats = numerator as i64;
    if n == 0 {
        changes.push(
            Bpmchange {
                micros_per_beat: DEFAULT_MICROS_PER_BEAT,
                time,
                beats_per_bar: beats,
                metronome_offset: beats,
            },
        );
        assert(changes@ =~= upsert_meter_spec(old(changes)@, time, numerator));
    } else {
        let last = changes[n - 1];
        if last.time == time {
            changes.set(n - 1, Bpmchange { beats_per_bar: beats, metronome_offset: beats, ..last });
        } else {
            changes.push(Bpmchange { time, beats_per_bar: beats, metronome_offset: beats, ..last });
        }
    }
}

/// The running state of the conversion of one track.
pub struct TimingState {
    pub ticks_elapsed: u64,
    pub current_beat_len: u64,
    pub beat_ticks: u64,
    pub notes: Vec<Note>,
    pub changes: Vec<Bpmchange>,
}

impl View for TimingState {
    type V = ConvState;

    open spec fn view(&self) -> ConvState {
        ConvState {
            ticks_elapsed: self.ticks_elapsed as int,
            beat_len: self.current_beat_len as int,
            beat_ticks: self.beat_ticks as int,
            notes: self.notes@,
            changes: self.changes@,
        }
    }
}

impl TimingState {
    /// The state before the first event.
    pub fn new() -> (r: TimingState)
        ensures
            r@ == initial_state(),
            r.beat_ticks <= r.ticks_elapsed,
    {
        let r = TimingState {
            ticks_elapsed: 0,
            current_beat_len: 0,
            beat_ticks: 0,
            notes: Vec::new(),
            changes: Vec::new(),
        };
        assert(r@ =~= initial_state());
        r
    }

    /// Takes one event: advances the tick count and the beat position by
    /// its delta, then emits a note, or records a tempo or meter change.
    pub fn advance<'a>(&mut self, offset: OffsetEvent<'a>, timing: Timing, drum_map: &Vec<u8>)
        requires
            old(self).ticks_elapsed + offset.delta <= u64::MAX,
            old(self).beat_ticks <= old(self).ticks_elapsed,
            drum_map@.len() <= i64::MAX,
        ensures
            final(self)@ == step(old(self)@, offset, timing, drum_map@),
            final(self).ticks_elapsed == old(self).ticks_elapsed + offset.delta,
            final(self).beat_ticks <= final(self).ticks_elapsed,
    {
        reveal(step);
        self.ticks_elapsed = self.ticks_elapsed + offset.delta;
        if self.current_beat_len != 0 {
            self.beat_ticks = self.beat_ticks + offset.delta;
        }
        let ticks_per_beat: u64 = match timing {
            Timing::Metrical(m) => m as u64,
            Timing::Timecode(..) => 0,
        };
        let time = BeatTime { ticks: self.beat_ticks, ticks_per_beat };
        match &offset.event.kind {
            EventKind::NoteOn { channel: _, key, vel } => {
                if *vel != 0 {
                    self.notes.push(
                        Note {
                            time,
                            line_index: lane_index(drum_map, *key),
                            line_layer: 1,
                            type_field: 0,
                            cut_direction: 1,
                        },
                    );
                }
            },
            EventKind::Tempo(micros) => {
                match timing {
                    Timing::Metrical(m) => {
                        self.current_beat_len = m as u64;
                    },
                    Timing::Timecode(..) => {},
                }
                upsert_tempo(&mut self.changes, time, *micros);
            },
            EventKind::TimeSignature(numerator, _, _, _) => {
                upsert_meter(&mut self.changes, time, *numerator);
            },
            _ => {},
        }
    }
}

} // verus!
