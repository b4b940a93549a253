//! Decoded MIDI events, as the library sees them.
use vstd::prelude::*;

verus! {

/// The payload of one track event.
pub enum EventKind {
    /// A note-on message; velocity zero means the note is released.
    NoteOn { channel: u8, key: u8, vel: u8 },
    /// A note-off message.
    NoteOff { channel: u8, key: u8, vel: u8 },
    /// A tempo change, in microseconds per quarter note.
    Tempo(u32),
    /// A time signature: numerator, denominator as a power of two,
    /// MIDI clocks per metronome click, 32nd notes per quarter note.
    TimeSignature(u8, u8, u8, u8),
    /// The raw bytes of a track-name meta event.
    TrackName(Vec<u8>),
    /// Anything else; ignored by the conversion.
    Other,
}

/// One event of a track, with its delta-time in ticks since the previous
/// event of the same track.
pub struct TrackEvent {
    pub delta: u32,
    pub kind: EventKind,
}

/// The timing header of a MIDI file.
#[derive(Clone, Copy, PartialEq, Eq, Structural)]
pub enum Timing {
    /// Ticks per quarter note.
    Metrical(u16),
    /// Frames per second and ticks per frame.
    Timecode(u8, u8),
}

/// A decoded MIDI file: its timing header and its tracks.
pub struct MidiFile {
    pub timing: Timing,
    pub tracks: Vec<Vec<TrackEvent>>,
}

/// An event of a track together with its absolute tick within that track.
#[derive(Clone, Copy)]
pub struct StampedEvent<'a> {
    pub event: &'a TrackEvent,
    pub ticks_elapsed: u64,
}

/// An event of a merged sequence with its delta-time relative to the
/// previous event of that sequence.
#[derive(Clone, Copy)]
pub struct OffsetEvent<'a> {
    pub event: &'a TrackEvent,
    pub delta: u64,
}

/// Note-on and note-off messages are the playable events.
pub open spec fn is_note_kind(k: EventKind) -> bool {
    k is NoteOn || k is NoteOff
}

/// Tempo and time-signature changes are the events shared between tracks.
pub open spec fn is_meter_kind(k: EventKind) -> bool {
    k is Tempo || k is TimeSignature
}

impl EventKind {
    pub fn is_note(&self) -> (r: bool)
        ensures
            r == is_note_kind(*self),
    {
        match self {
            EventKind::NoteOn { .. } => true,
            EventKind::NoteOff { .. } => true,
            _ => false,
        }
    }

    pub fn is_meter(&self) -> (r: bool)
        ensures
            r == is_meter_kind(*self),
    {
        match self {
            EventKind::Tempo(_) => true,
            EventKind::TimeSignature(..) => true,
            _ => false,
        }
    }
}

} // verus!
