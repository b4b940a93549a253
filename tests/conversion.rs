use taiko::chart::{BeatTime, Bpmchange, CustomData, Note, Root};
use taiko::config::{lane_index, Config};
use taiko::converter::{ConvertError, MidiConverter, TrackAsOffsets};
use taiko::event::{EventKind, MidiFile, OffsetEvent, Timing, TrackEvent};
use taiko::tracks::{get_meta_events, is_data_track, merge_events, to_offsets, track_to_stamped};

fn note_on(delta: u32, key: u8, vel: u8) -> TrackEvent {
    TrackEvent { delta, kind: EventKind::NoteOn { channel: 9, key, vel } }
}

fn tempo(delta: u32, micros: u32) -> TrackEvent {
    TrackEvent { delta, kind: EventKind::Tempo(micros) }
}

fn meter(delta: u32, numerator: u8) -> TrackEvent {
    TrackEvent { delta, kind: EventKind::TimeSignature(numerator, 2, 24, 8) }
}

fn name(delta: u32, text: &[u8]) -> TrackEvent {
    TrackEvent { delta, kind: EventKind::TrackName(text.to_vec()) }
}

fn beats(t: &BeatTime) -> f64 {
    if t.ticks_per_beat == 0 {
        0.0
    } else {
        t.ticks as f64 / t.ticks_per_beat as f64
    }
}

fn convert_all(file: &MidiFile) -> Result<Vec<(String, Root)>, ConvertError> {
    let config = Config::default();
    MidiConverter::new(String::from("song.mid"), &config).to_root_merge_meta(file)
}

#[test]
fn stamped_ticks_are_running_sums_of_deltas() {
    let track = vec![note_on(0, 60, 100), note_on(480, 61, 100), note_on(0, 62, 100), tempo(240, 500000)];
    let stamped = track_to_stamped(&track).unwrap();
    let ticks: Vec<u64> = stamped.iter().map(|s| s.ticks_elapsed).collect();
    assert_eq!(ticks, vec![0, 480, 480, 720]);
}

#[test]
fn stamping_an_empty_track_gives_no_event() {
    let track: Vec<TrackEvent> = vec![];
    assert_eq!(track_to_stamped(&track).unwrap().len(), 0);
}

#[test]
fn four_quarter_notes_at_120_bpm() {
    let track = vec![
        tempo(0, 500000),
        note_on(0, 60, 100),
        note_on(480, 61, 100),
        note_on(480, 62, 100),
        note_on(480, 63, 100),
    ];
    let file = MidiFile { timing: Timing::Metrical(480), tracks: vec![track] };
    let charts = convert_all(&file).unwrap();
    assert_eq!(charts.len(), 1);
    let (chart_name, chart) = &charts[0];
    assert_eq!(chart_name, "Easy");
    assert_eq!(chart.version, "1");
    assert_eq!(chart.custom_data.time, 0);
    let changes = &chart.custom_data.bpmchanges;
    assert_eq!(changes.len(), 1);
    assert_eq!(60_000_000.0 / changes[0].micros_per_beat as f64, 120.0);
    assert_eq!(beats(&changes[0].time), 0.0);
    assert_eq!(changes[0].beats_per_bar, 4);
    assert_eq!(changes[0].metronome_offset, 4);
    let times: Vec<f64> = chart.notes.iter().map(|n| beats(&n.time)).collect();
    assert_eq!(times, vec![0.0, 1.0, 2.0, 3.0]);
    let lanes: Vec<i64> = chart.notes.iter().map(|n| n.line_index).collect();
    assert_eq!(lanes, vec![0, 1, 2, 3]);
    for n in chart.notes.iter() {
        assert_eq!((n.line_layer, n.type_field, n.cut_direction), (1, 0, 1));
    }
}

#[test]
fn data_track_tempo_reaches_note_track() {
    let data = vec![tempo(0, 500000), tempo(960, 250000)];
    let notes = vec![note_on(0, 60, 100), note_on(1920, 61, 100)];
    let file = MidiFile { timing: Timing::Metrical(480), tracks: vec![data, notes] };
    let charts = convert_all(&file).unwrap();
    assert_eq!(charts.len(), 1);
    let chart = &charts[0].1;
    let changes = &chart.custom_data.bpmchanges;
    assert_eq!(changes.len(), 2);
    assert_eq!(beats(&changes[0].time), 0.0);
    assert_eq!(changes[0].micros_per_beat, 500000);
    assert_eq!(beats(&changes[1].time), 2.0);
    assert_eq!(changes[1].micros_per_beat, 250000);
    assert_eq!(60_000_000.0 / changes[1].micros_per_beat as f64, 240.0);
    let times: Vec<f64> = chart.notes.iter().map(|n| beats(&n.time)).collect();
    assert_eq!(times, vec![0.0, 4.0]);
}

#[test]
fn data_track_tempo_before_any_beat_length() {
    let data = vec![tempo(960, 500000)];
    let notes = vec![note_on(0, 60, 100), note_on(1920, 61, 100)];
    let file = MidiFile { timing: Timing::Metrical(480), tracks: vec![data, notes] };
    let charts = convert_all(&file).unwrap();
    let chart = &charts[0].1;
    let changes = &chart.custom_data.bpmchanges;
    assert_eq!(changes.len(), 1);
    assert_eq!(beats(&changes[0].time), 0.0);
    let times: Vec<f64> = chart.notes.iter().map(|n| beats(&n.time)).collect();
    assert_eq!(times, vec![0.0, 2.0]);
}

#[test]
fn data_track_gives_no_chart() {
    let data = vec![name(0, b"Conductor"), tempo(0, 500000), meter(0, 3)];
    let notes = vec![note_on(0, 60, 100)];
    let file = MidiFile { timing: Timing::Metrical(96), tracks: vec![data, notes] };
    let charts = convert_all(&file).unwrap();
    assert_eq!(charts.len(), 1);
    assert_eq!(charts[0].0, "Easy");
    let changes = &charts[0].1.custom_data.bpmchanges;
    assert_eq!(changes.len(), 1);
    assert_eq!(changes[0].beats_per_bar, 3);
    assert_eq!(changes[0].micros_per_beat, 500000);
}

#[test]
fn data_track_classification() {
    let data = vec![tempo(0, 500000), meter(10, 4), name(0, b"x")];
    let stamped = track_to_stamped(&data).unwrap();
    assert!(is_data_track(&stamped));
    let off = vec![TrackEvent { delta: 0, kind: EventKind::NoteOff { channel: 0, key: 60, vel: 0 } }];
    let stamped = track_to_stamped(&off).unwrap();
    assert!(!is_data_track(&stamped));
}

#[test]
fn tempo_events_at_same_beat_collapse() {
    let track = vec![tempo(0, 500000), tempo(0, 400000), note_on(0, 60, 100)];
    let file = MidiFile { timing: Timing::Metrical(480), tracks: vec![track] };
    let charts = convert_all(&file).unwrap();
    let changes = &charts[0].1.custom_data.bpmchanges;
    assert_eq!(changes.len(), 1);
    assert_eq!(changes[0].micros_per_beat, 400000);
}

#[test]
fn tempo_events_at_different_beats_append() {
    let track = vec![tempo(0, 500000), meter(0, 3), tempo(480, 400000), note_on(0, 60, 100)];
    let file = MidiFile { timing: Timing::Metrical(480), tracks: vec![track] };
    let charts = convert_all(&file).unwrap();
    let changes = &charts[0].1.custom_data.bpmchanges;
    assert_eq!(changes.len(), 2);
    assert_eq!(changes[0].micros_per_beat, 500000);
    assert_eq!(changes[0].beats_per_bar, 3);
    assert_eq!(beats(&changes[1].time), 1.0);
    assert_eq!(changes[1].micros_per_beat, 400000);
    assert_eq!(changes[1].beats_per_bar, 3);
    assert_eq!(changes[1].metronome_offset, 3);
}

#[test]
fn time_signature_first_defaults_to_120_bpm() {
    let track = vec![meter(0, 7), note_on(0, 60, 100)];
    let file = MidiFile { timing: Timing::Metrical(480), tracks: vec![track] };
    let charts = convert_all(&file).unwrap();
    let changes = &charts[0].1.custom_data.bpmchanges;
    assert_eq!(changes.len(), 1);
    assert_eq!(changes[0].micros_per_beat, 500000);
    assert_eq!(changes[0].beats_per_bar, 7);
    assert_eq!(changes[0].metronome_offset, 7);
}

#[test]
fn velocity_zero_note_on_gives_no_note() {
    let track = vec![tempo(0, 500000), note_on(0, 60, 100), note_on(240, 60, 0), note_on(240, 61, 90)];
    let file = MidiFile { timing: Timing::Metrical(480), tracks: vec![track] };
    let charts = convert_all(&file).unwrap();
    let notes = &charts[0].1.notes;
    assert_eq!(notes.len(), 2);
    assert_eq!(beats(&notes[1].time), 1.0);
    assert_eq!(notes[1].line_index, 1);
}

#[test]
fn unmapped_pitch_falls_back_to_lane_zero() {
    let track = vec![tempo(0, 500000), note_on(0, 62, 100), note_on(0, 35, 100)];
    let file = MidiFile { timing: Timing::Metrical(480), tracks: vec![track] };
    let charts = convert_all(&file).unwrap();
    let lanes: Vec<i64> = charts[0].1.notes.iter().map(|n| n.line_index).collect();
    assert_eq!(lanes, vec![2, 0]);
}

#[test]
fn lane_is_first_matching_position() {
    let map = vec![36, 38, 36, 42];
    assert_eq!(lane_index(&map, 36), 0);
    assert_eq!(lane_index(&map, 42), 3);
    assert_eq!(lane_index(&map, 99), 0);
    assert_eq!(lane_index(&vec![], 36), 0);
}

fn chart_with_times(ticks: &[u64]) -> Root {
    Root {
        version: String::from("1"),
        custom_data: CustomData { time: 0, bpmchanges: vec![] },
        notes: ticks
            .iter()
            .map(|t| Note {
                time: BeatTime { ticks: *t, ticks_per_beat: 2 },
                line_index: 0,
                line_layer: 1,
                type_field: 0,
                cut_direction: 1,
            })
            .collect(),
    }
}

#[test]
fn merging_charts_orders_notes_by_time() {
    let a = chart_with_times(&[2, 6]);
    let b = chart_with_times(&[1, 4]);
    let merged = Root::merge_note_events_vec(&vec![a, b]).unwrap();
    let times: Vec<f64> = merged.notes.iter().map(|n| beats(&n.time)).collect();
    assert_eq!(times, vec![0.5, 1.0, 2.0, 3.0]);
}

#[test]
fn merging_keeps_first_chart_timeline_and_ties_in_order() {
    let mut a = chart_with_times(&[2]);
    a.custom_data.bpmchanges.push(Bpmchange {
        micros_per_beat: 600000,
        time: BeatTime { ticks: 0, ticks_per_beat: 2 },
        beats_per_bar: 4,
        metronome_offset: 4,
    });
    a.notes[0].line_index = 5;
    let mut b = chart_with_times(&[2, 1]);
    b.notes[0].line_index = 6;
    // one beat written with another resolution
    b.notes.push(Note {
        time: BeatTime { ticks: 3, ticks_per_beat: 3 },
        line_index: 7,
        line_layer: 1,
        type_field: 0,
        cut_direction: 1,
    });
    let merged = Root::merge_note_events_vec(&vec![a, b]).unwrap();
    assert_eq!(merged.custom_data.bpmchanges.len(), 1);
    assert_eq!(merged.custom_data.bpmchanges[0].micros_per_beat, 600000);
    let lanes: Vec<i64> = merged.notes.iter().map(|n| n.line_index).collect();
    assert_eq!(lanes, vec![0, 5, 6, 7]);
}

#[test]
fn merging_no_chart_gives_nothing() {
    assert!(Root::merge_note_events_vec(&vec![]).is_none());
}

#[test]
fn single_output_merges_all_note_tracks() {
    let data = vec![tempo(0, 500000)];
    let a = vec![note_on(480, 60, 100), note_on(960, 61, 100)];
    let b = vec![note_on(0, 62, 100), note_on(960, 63, 100)];
    let file = MidiFile { timing: Timing::Metrical(480), tracks: vec![data, a, b] };
    let config = Config::default();
    let merged = MidiConverter::new(String::from("song.mid"), &config)
        .to_root_merge_notes_and_meta(&file)
        .unwrap();
    let times: Vec<f64> = merged.notes.iter().map(|n| beats(&n.time)).collect();
    assert_eq!(times, vec![0.0, 1.0, 2.0, 3.0]);
    let lanes: Vec<i64> = merged.notes.iter().map(|n| n.line_index).collect();
    assert_eq!(lanes, vec![2, 0, 3, 1]);
    assert_eq!(merged.custom_data.bpmchanges.len(), 1);
}

#[test]
fn file_without_tracks_is_an_error() {
    let file = MidiFile { timing: Timing::Metrical(480), tracks: vec![] };
    assert_eq!(convert_all(&file).err(), Some(ConvertError::NoTracks));
    let config = Config::default();
    let r = MidiConverter::new(String::new(), &config).to_root_merge_notes_and_meta(&file);
    assert_eq!(r.err(), Some(ConvertError::NoTracks));
}

#[test]
fn file_without_note_tracks_has_nothing_to_merge() {
    let file = MidiFile { timing: Timing::Metrical(480), tracks: vec![vec![tempo(0, 500000)]] };
    assert_eq!(convert_all(&file).unwrap().len(), 0);
    let config = Config::default();
    let r = MidiConverter::new(String::new(), &config).to_root_merge_notes_and_meta(&file);
    assert_eq!(r.err(), Some(ConvertError::NothingToMerge));
}

#[test]
fn charts_are_named_by_track_name_or_position() {
    let tracks = vec![
        vec![note_on(0, 60, 100)],
        vec![name(0, "Schwer \u{00e9}".as_bytes()), note_on(0, 60, 100)],
        vec![name(0, &[0xff, 0xfe]), name(0, b"Ignored"), note_on(0, 60, 100)],
        vec![note_on(0, 60, 100)],
        vec![note_on(0, 60, 100)],
    ];
    let file = MidiFile { timing: Timing::Metrical(480), tracks };
    let names: Vec<String> = convert_all(&file).unwrap().into_iter().map(|c| c.0).collect();
    assert_eq!(names, vec!["Easy", "Schwer \u{00e9}", "Hard", "OutOfBounds", "OutOfBounds"]);
}

#[test]
fn track_name_decodes_first_name_event() {
    let events = vec![note_on(0, 60, 1), name(0, b"Drums"), name(0, b"Other")];
    let offsets = TrackAsOffsets {
        offsets: events.iter().map(|e| OffsetEvent { event: e, delta: 0 }).collect(),
    };
    assert_eq!(offsets.track_name(), Some(String::from("Drums")));
    let none = TrackAsOffsets { offsets: vec![] };
    assert_eq!(none.track_name(), None);
}

#[test]
fn timecode_timing_keeps_beat_zero() {
    let track = vec![tempo(0, 500000), note_on(100, 60, 100), note_on(100, 61, 100)];
    let file = MidiFile { timing: Timing::Timecode(25, 40), tracks: vec![track] };
    let charts = convert_all(&file).unwrap();
    let times: Vec<f64> = charts[0].1.notes.iter().map(|n| beats(&n.time)).collect();
    assert_eq!(times, vec![0.0, 0.0]);
}

#[test]
fn pool_and_merge_keep_every_meter_event_in_tick_order() {
    let a = vec![note_on(0, 60, 1), note_on(100, 61, 1), note_on(100, 62, 1)];
    let b = vec![tempo(100, 400000), meter(50, 3), note_on(0, 60, 1)];
    let sa = track_to_stamped(&a).unwrap();
    let sb = track_to_stamped(&b).unwrap();
    let pool = get_meta_events(&vec![sa.clone(), sb.clone()]);
    assert_eq!(pool.len(), 2);
    let merged = merge_events(sa.clone(), pool);
    let ticks: Vec<u64> = merged.iter().map(|s| s.ticks_elapsed).collect();
    assert_eq!(ticks, vec![0, 100, 100, 150, 200]);
    // at equal ticks the track's own event comes first
    assert!(matches!(merged[1].event.kind, EventKind::NoteOn { key: 61, .. }));
    assert!(matches!(merged[2].event.kind, EventKind::Tempo(400000)));
    let offsets = to_offsets(&merged);
    let deltas: Vec<u64> = offsets.iter().map(|o| o.delta).collect();
    assert_eq!(deltas, vec![0, 100, 0, 50, 50]);
}

#[test]
fn beat_positions_never_decrease() {
    let track = vec![
        note_on(0, 60, 100),
        tempo(120, 500000),
        note_on(0, 61, 100),
        tempo(240, 300000),
        meter(0, 5),
        note_on(0, 62, 100),
        note_on(360, 63, 100),
        tempo(0, 700000),
        note_on(480, 60, 100),
    ];
    let file = MidiFile { timing: Timing::Metrical(240), tracks: vec![track] };
    let charts = convert_all(&file).unwrap();
    let chart = &charts[0].1;
    let times: Vec<f64> = chart.notes.iter().map(|n| beats(&n.time)).collect();
    assert_eq!(times, vec![0.0, 0.0, 1.0, 2.5, 4.5]);
    let change_times: Vec<f64> = chart.custom_data.bpmchanges.iter().map(|c| beats(&c.time)).collect();
    assert_eq!(change_times, vec![0.0, 1.0, 2.5]);
    assert_eq!(chart.custom_data.bpmchanges[1].beats_per_bar, 5);
    assert_eq!(chart.custom_data.bpmchanges[1].micros_per_beat, 300000);
}
