//! The conversion of a decoded MIDI file into charts.
use vstd::prelude::*;
use vstd::utf8::{valid_utf8, decode_utf8};
use crate::chart::{merged_chart, CustomData, Root, RootView};
use crate::config::Config;
use crate::event::{is_meter_kind, EventKind, MidiFile, OffsetEvent, StampedEvent, Timing, TrackEvent};
use crate::ordering::{is_sorted_by, lemma_sort_ordered};
use crate::tracks::{
    copy_stamped, delta_sum, views_of, get_meta_events, is_data_track, is_data_track_spec,
    lemma_by_ticks_total_preorder, lemma_offsets_sum, merge_events, merged_events, meter_pool,
    meter_events, offsets_of, stamped_spec, to_offsets, track_to_stamped, by_ticks,
};
use crate::text::utf8_to_string;
use crate::timing::{TimingState, chart_of, lemma_offset_sum_prefix, offset_sum, run};

verus! {

/// The merged events of one note track, as delta-times.
pub struct TrackAsOffsets<'a> {
    pub offsets: Vec<OffsetEvent<'a>>,
}

/// The bytes of the first track-name event at or after position `i`.
pub open spec fn name_bytes_from<'a>(offsets: Seq<OffsetEvent<'a>>, i: int) -> Option<Seq<u8>>
    decreases offsets.len() - i,
{
    if i < 0 || i >= offsets.len() {
        None
    } else {
        match offsets[i].event.kind {
            EventKind::TrackName(b) => Some(b@),
            _ => name_bytes_from(offsets, i + 1),
        }
    }
}

/// The name of a track: its first track-name event, decoded as UTF-8; none
/// when there is no such event or its bytes are not valid UTF-8.
pub open spec fn track_name_spec<'a>(offsets: Seq<OffsetEvent<'a>>) -> Option<Seq<char>> {
    match name_bytes_from(offsets, 0) {
        Some(b) => if valid_utf8(b) {
            Some(decode_utf8(b))
        } else {
            None
        },
        None => None,
    }
}

/// The name given to the `i`-th note track when it names none itself.
pub open spec fn fallback_name(i: int) -> Seq<char> {
    if i == 0 {
        seq!['E', 'a', 's', 'y']
    } else if i == 1 {
        seq!['N', 'o', 'r', 'm', 'a', 'l']
    } else if i == 2 {
        seq!['H', 'a', 'r', 'd']
    } else {
        seq!['O', 'u', 't', 'O', 'f', 'B', 'o', 'u', 'n', 'd', 's']
    }
}

/// The name of the chart of the `i`-th note track.
pub open spec fn chart_name<'a>(offsets: Seq<OffsetEvent<'a>>, i: int) -> Seq<char> {
    match track_name_spec(offsets) {
        Some(n) => n,
        None => fallback_name(i),
    }
}

impl<'a> TrackAsOffsets<'a> {
    /// The track's name, from its first track-name event.
    pub fn track_name(&self) -> (r: Option<String>)
        ensures
            r is Some <==> track_name_spec(self.offsets@) is Some,
            r matches Some(n) ==> track_name_spec(self.offsets@) == Some(n@),
    {
        let mut i: usize = 0;
        while i < self.offsets.len()
            invariant
                0 <= i <= self.offsets@.len(),
                name_bytes_from(self.offsets@, 0) == name_bytes_from(self.offsets@, i as int),
            decreases self.offsets@.len() - i,
        {
            match &self.offsets[i].event.kind {
                EventKind::TrackName(name) => {
                    return utf8_to_string(name.as_slice());
                },
                _ => {},
            }
            i += 1;
        }
        None
    }
}

/// Names the `i`-th note track when it names none itself.
pub fn fallback_track_name(i: usize) -> (r: String)
    ensures
        r@ == fallback_name(i as int),
{
    if i == 0 {
        let r = String::from_str("Easy");
        proof {
            reveal_strlit("Easy");
        }
        r
    } else if i == 1 {
        let r = String::from_str("Normal");
        proof {
            reveal_strlit("Normal");
        }
        r
    } else if i == 2 {
        let r = String::from_str("Hard");
        proof {
            reveal_strlit("Hard");
        }
        r
    } else {
        let r = String::from_str("OutOfBounds");
        proof {
            reveal_strlit("OutOfBounds");
        }
        r
    }
}

/// Why a file could not be converted.
#[derive(Clone, Copy, PartialEq, Eq, Structural, Debug)]
pub enum ConvertError {
    /// The file holds no track.
    NoTracks,
    /// The absolute tick of some event does not fit in a `u64`.
    TickOverflow,
    /// The file holds no note track whose notes could be merged.
    NothingToMerge,
}

/// The tracks of a file, each stamped with absolute ticks.
pub open spec fn stamped_tracks<'a>(tracks: Seq<Vec<TrackEvent>>) -> Seq<Seq<StampedEvent<'a>>> {
    Seq::new(tracks.len(), |i: int| stamped_spec::<'a>(tracks[i]@))
}

/// Some track's total of delta-times does not fit in a `u64`.
pub open spec fn some_track_overflows(tracks: Seq<Vec<TrackEvent>>) -> bool {
    exists|i: int| 0 <= i < tracks.len() && delta_sum(tracks[i]@, tracks[i]@.len() as int) > u64::MAX
}

/// The tracks that hold note events, in file order.
pub open spec fn note_tracks<'a>(tracks: Seq<Seq<StampedEvent<'a>>>) -> Seq<Seq<StampedEvent<'a>>>
    decreases tracks.len(),
{
    if tracks.len() == 0 {
        Seq::empty()
    } else if is_data_track_spec(tracks.last()) {
        note_tracks(tracks.drop_last())
    } else {
        note_tracks(tracks.drop_last()).push(tracks.last())
    }
}

/// A note track merged with the pooled tempo and meter events, as offsets.
pub open spec fn track_offsets<'a>(
    track: Seq<StampedEvent<'a>>,
    pool: Seq<StampedEvent<'a>>,
) -> Seq<OffsetEvent<'a>> {
    offsets_of(merged_events(track, pool))
}

/// The named charts of a file: one per note track, each converted from the
/// track merged with the tempo and meter events of every track.
pub open spec fn converted_charts(
    tracks: Seq<Vec<TrackEvent>>,
    timing: Timing,
    map: Seq<u8>,
) -> Seq<(Seq<char>, RootView)> {
    let stamped = stamped_tracks::<'static>(tracks);
    let pool = meter_pool(stamped);
    let notes = note_tracks(stamped);
    Seq::new(
        notes.len(),
        |i: int|
            {
                let o = track_offsets(notes[i], pool);
                (chart_name(o, i), chart_of(run(o, timing, map)))
            },
    )
}

/// A meter event of a track is in that track's meter events.
proof fn lemma_meter_events_contains<'a>(track: Seq<StampedEvent<'a>>, k: int)
    requires
        0 <= k < track.len(),
        is_meter_kind(track[k].event.kind),
    ensures
        meter_events(track).contains(track[k]),
    decreases track.len(),
{
    if k < track.len() - 1 {
        lemma_meter_events_contains(track.drop_last(), k);
        let m = meter_events(track.drop_last());
        let i = choose|i: int| 0 <= i < m.len() && m[i] == track[k];
        if is_meter_kind(track.last().event.kind) {
            assert(meter_events(track)[i] == track[k]);
        }
    } else {
        let m = meter_events(track);
        assert(m[m.len() - 1] == track[k]);
    }
}

/// A meter event of any track is in the pool.
proof fn lemma_meter_pool_contains<'a>(tracks: Seq<Seq<StampedEvent<'a>>>, d: int, k: int)
    requires
        0 <= d < tracks.len(),
        0 <= k < tracks[d].len(),
        is_meter_kind(tracks[d][k].event.kind),
    ensures
        meter_pool(tracks).contains(tracks[d][k]),
    decreases tracks.len(),
{
    let p = meter_pool(tracks);
    let q = meter_pool(tracks.drop_last());
    if d < tracks.len() - 1 {
        lemma_meter_pool_contains(tracks.drop_last(), d, k);
        let i = choose|i: int| 0 <= i < q.len() && q[i] == tracks[d][k];
        assert(p[i] == tracks[d][k]);
    } else {
        lemma_meter_events_contains(tracks[d], k);
        let m = meter_events(tracks[d]);
        let i = choose|i: int| 0 <= i < m.len() && m[i] == tracks[d][k];
        assert(p[q.len() + i] == tracks[d][k]);
    }
}

/// The note tracks are exactly the tracks that hold a note event: no data
/// track is among them, and every other track is.
pub proof fn lemma_note_tracks_exclude_data<'a>(tracks: Seq<Seq<StampedEvent<'a>>>)
    ensures
        forall|i: int| 0 <= i < note_tracks(tracks).len()
            ==> !is_data_track_spec(#[trigger] note_tracks(tracks)[i]) && tracks.contains(note_tracks(tracks)[i]),
        forall|d: int| 0 <= d < tracks.len() && !is_data_track_spec(#[trigger] tracks[d])
            ==> note_tracks(tracks).contains(tracks[d]),
    decreases tracks.len(),
{
    if tracks.len() > 0 {
        let rest = tracks.drop_last();
        lemma_note_tracks_exclude_data(rest);
        let n = note_tracks(tracks);
        let m = note_tracks(rest);
        assert forall|i: int| 0 <= i < n.len() implies !is_data_track_spec(#[trigger] n[i]) && tracks.contains(n[i]) by {
            if i < m.len() {
                assert(n[i] == m[i]);
                let j = choose|j: int| 0 <= j < rest.len() && rest[j] == m[i];
                assert(tracks[j] == n[i]);
            } else {
                assert(tracks[tracks.len() - 1] == n[i]);
            }
        }
        assert forall|d: int| 0 <= d < tracks.len() && !is_data_track_spec(#[trigger] tracks[d]) implies n.contains(tracks[d]) by {
            if d < tracks.len() - 1 {
                assert(rest[d] == tracks[d]);
                let j = choose|j: int| 0 <= j < m.len() && m[j] == rest[d];
                assert(n[j] == tracks[d]);
            } else {
                assert(n[n.len() - 1] == tracks[d]);
            }
        }
    }
}

/// Every tempo or time-signature event of any track, data track or not,
/// appears with its own absolute tick in the merged sequence of every note
/// track, and that sequence is ordered by tick.
pub proof fn lemma_meter_events_reach_every_note_track<'a>(
    tracks: Seq<Seq<StampedEvent<'a>>>,
    d: int,
    k: int,
    n: int,
)
    requires
        0 <= d < tracks.len(),
        0 <= k < tracks[d].len(),
        is_meter_kind(tracks[d][k].event.kind),
        0 <= n < note_tracks(tracks).len(),
    ensures
        merged_events(note_tracks(tracks)[n], meter_pool(tracks)).contains(tracks[d][k]),
        is_sorted_by(merged_events(note_tracks(tracks)[n], meter_pool(tracks)), by_ticks()),
{
    broadcast use vstd::seq_lib::group_to_multiset_ensures;

    let pool = meter_pool(tracks);
    let t = note_tracks(tracks)[n];
    lemma_meter_pool_contains(tracks, d, k);
    let i = choose|i: int| 0 <= i < pool.len() && pool[i] == tracks[d][k];
    assert((t + pool)[t.len() + i] == tracks[d][k]);
    lemma_by_ticks_total_preorder();
    lemma_sort_ordered(t + pool, by_ticks());
    assert((t + pool).contains(tracks[d][k]));
    assert((t + pool).to_multiset().count(tracks[d][k]) > 0);
}

/// Converts MIDI files into charts under a configuration.
pub struct MidiConverter<'a> {
    pub source: String,
    pub configuration: &'a Config,
}

impl<'a> MidiConverter<'a> {
    /// A converter for the file at `source`.
    pub fn new(source: String, configuration: &'a Config) -> (r: Self)
        ensures
            r.source == source,
            r.configuration == configuration,
    {
        MidiConverter { source, configuration }
    }

    /// Runs the tick-to-beat state machine over one track's offsets and
    /// packages the notes and tempo timeline into a chart.
    pub fn track_to_root_from_offsets<'b>(&self, track: &TrackAsOffsets<'b>, timing: Timing) -> (r: Root)
        requires
            offset_sum(track.offsets@) <= u64::MAX,
            self.configuration.drum_map@.len() <= i64::MAX,
        ensures
            r@ == chart_of(run(track.offsets@, timing, self.configuration.drum_map@)),
    {
        let ghost offsets = track.offsets@;
        let ghost map = self.configuration.drum_map@;
        let drum_map = &self.configuration.drum_map;
        let mut state = TimingState::new();
        let mut i: usize = 0;
        while i < track.offsets.len()
            invariant
                0 <= i <= offsets.len(),
                offsets == track.offsets@,
                map == drum_map@,
                drum_map@.len() <= i64::MAX,
                offset_sum(offsets) <= u64::MAX,
                state.beat_ticks <= state.ticks_elapsed,
                state.ticks_elapsed == offset_sum(offsets.take(i as int)),
                state@ == run(offsets.take(i as int), timing, map),
            decreases offsets.len() - i,
        {
            let offset = track.offsets[i];
            proof {
                assert(offsets.take(i + 1).drop_last() =~= offsets.take(i as int));
                assert(offsets.take(i + 1).last() == offset);
                lemma_offset_sum_prefix(offsets, i + 1);
            }
            state.advance(offset, timing, drum_map);
            i += 1;
        }
        proof {
            assert(offsets.take(i as int) =~= offsets);
        }
        let version = String::from_str("1");
        proof {
            reveal_strlit("1");
            assert(version@ =~= seq!['1']);
        }
        let r = Root {
            version,
            custom_data: CustomData { time: 0, bpmchanges: state.changes },
            notes: state.notes,
        };
        proof {
            assert(r@ =~= chart_of(run(offsets, timing, map)));
        }
        r
    }

    /// Converts every note track of `smf` into a named chart. Data tracks
    /// (no note events) give no chart, but their tempo and meter events are
    /// merged into every note track.
    pub fn to_root_merge_meta<'b>(&self, smf: &'b MidiFile) -> (r: Result<Vec<(String, Root)>, ConvertError>)
        requires
            self.configuration.drum_map@.len() <= i64::MAX,
        ensures
            smf.tracks@.len() == 0 ==> r == Err::<Vec<(String, Root)>, ConvertError>(ConvertError::NoTracks),
            smf.tracks@.len() > 0 && some_track_overflows(smf.tracks@) ==> r == Err::<
                Vec<(String, Root)>,
                ConvertError,
            >(ConvertError::TickOverflow),
            smf.tracks@.len() > 0 && !some_track_overflows(smf.tracks@) ==> r is Ok,
            r matches Ok(v) ==> {
                let c = converted_charts(smf.tracks@, smf.timing, self.configuration.drum_map@);
                &&& v@.len() == c.len()
                &&& forall|i: int| 0 <= i < v@.len() ==> (#[trigger] v@[i]).0@ == c[i].0 && v@[i].1@ == c[i].1
            },
    {
        if smf.tracks.len() == 0 {
            return Err(ConvertError::NoTracks);
        }
        let ghost tracks = smf.tracks@;
        let ghost map = self.configuration.drum_map@;
        let mut track_as_stamped: Vec<Vec<StampedEvent<'b>>> = Vec::new();
        let mut i: usize = 0;
        while i < smf.tracks.len()
            invariant
                0 <= i <= tracks.len(),
                tracks == smf.tracks@,
                views_of(track_as_stamped@) == stamped_tracks::<'b>(
                    tracks.take(i as int),
                ),
                forall|j: int| 0 <= j < i ==> delta_sum(tracks[j]@, tracks[j]@.len() as int) <= u64::MAX,
            decreases tracks.len() - i,
        {
            let ghost prev = track_as_stamped@;
            match track_to_stamped(&smf.tracks[i]) {
                Some(stamped) => {
                    track_as_stamped.push(stamped);
                    proof {
                        assert(stamped_tracks::<'b>(tracks.take(i as int)).len() == i);
                        assert(prev.len() == i);
                        let want = stamped_tracks::<'b>(tracks.take(i + 1));
                        let got = views_of(track_as_stamped@);
                        assert forall|j: int| 0 <= j < i implies got[j] == want[j] by {
                            assert(views_of(prev)[j] == stamped_tracks::<'b>(tracks.take(i as int))[j]);
                        }
                    }
                },
                None => {
                    return Err(ConvertError::TickOverflow);
                },
            }
            assert(views_of(track_as_stamped@) =~= stamped_tracks::<'b>(
                tracks.take(i + 1),
            ));
            i += 1;
        }
        assert(tracks.take(i as int) =~= tracks);
        let ghost stamped = stamped_tracks::<'b>(tracks);
        let meta_events = get_meta_events(&track_as_stamped);
        let ghost pool = meta_events@;
        assert(pool == meter_pool(stamped));
        let mut roots: Vec<(String, Root)> = Vec::new();
        let mut t: usize = 0;
        while t < track_as_stamped.len()
            invariant
                0 <= t <= stamped.len(),
                stamped.len() == track_as_stamped@.len(),
                forall|j: int| 0 <= j < stamped.len() ==> #[trigger] track_as_stamped@[j]@ == stamped[j],
                meta_events@ == pool,
                map == self.configuration.drum_map@,
                map.len() <= i64::MAX,
                roots@.len() == note_tracks(stamped.take(t as int)).len(),
                forall|j: int| 0 <= j < roots@.len() ==> {
                    let o = track_offsets(#[trigger] note_tracks(stamped.take(t as int))[j], pool);
                    roots@[j].0@ == chart_name(o, j) && roots@[j].1@ == chart_of(run(o, smf.timing, map))
                },
            decreases stamped.len() - t,
        {
            let ghost before = note_tracks(stamped.take(t as int));
            assert(stamped.take(t + 1).drop_last() =~= stamped.take(t as int));
            assert(stamped.take(t + 1).last() == stamped[t as int]);
            let track = &track_as_stamped[t];
            if !is_data_track(track) {
                let merged = merge_events(copy_stamped(track), copy_stamped(&meta_events));
                proof {
                    lemma_by_ticks_total_preorder();
                    lemma_sort_ordered(stamped[t as int] + pool, by_ticks::<'b>());
                }
                let offsets = TrackAsOffsets { offsets: to_offsets(&merged) };
                proof {
                    let o = offsets_of(merged@);
                    if merged@.len() > 0 {
                        lemma_offsets_sum(merged@, merged@.len() as int);
                        assert(o.take(o.len() as int) =~= o);
                    }
                }
                let root = self.track_to_root_from_offsets(&offsets, smf.timing);
                let name = match offsets.track_name() {
                    Some(n) => n,
                    None => fallback_track_name(roots.len()),
                };
                roots.push((name, root));
            }
            t += 1;
        }
        assert(stamped.take(t as int) =~= stamped);
        Ok(roots)
    }

    /// Converts every note track of `smf` and merges all their notes into a
    /// single chart, which keeps the tempo timeline of the first note track.
    pub fn to_root_merge_notes_and_meta<'b>(&self, smf: &'b MidiFile) -> (r: Result<Root, ConvertError>)
        requires
            self.configuration.drum_map@.len() <= i64::MAX,
        ensures
            smf.tracks@.len() == 0 ==> r == Err::<Root, ConvertError>(ConvertError::NoTracks),
            smf.tracks@.len() > 0 && some_track_overflows(smf.tracks@) ==> r == Err::<Root, ConvertError>(
                ConvertError::TickOverflow,
            ),
            ({
                let c = converted_charts(smf.tracks@, smf.timing, self.configuration.drum_map@);
                smf.tracks@.len() > 0 && !some_track_overflows(smf.tracks@) ==> if c.len() == 0 {
                    r == Err::<Root, ConvertError>(ConvertError::NothingToMerge)
                } else {
                    r matches Ok(m) && m@ == merged_chart(c.map_values(|p: (Seq<char>, RootView)| p.1))
                }
            }),
    {
        let ghost c = converted_charts(smf.tracks@, smf.timing, self.configuration.drum_map@);
        match self.to_root_merge_meta(smf) {
            Err(e) => Err(e),
            Ok(named) => {
                let mut named = named;
                let ghost all = named@;
                let mut roots: Vec<Root> = Vec::new();
                while named.len() > 0
                    invariant
                        roots@.len() + named@.len() == all.len(),
                        forall|j: int| 0 <= j < roots@.len() ==> (#[trigger] roots@[j])@ == all[j].1@,
                        forall|j: int| 0 <= j < named@.len() ==> #[trigger] named@[j] == all[j + roots@.len()],
                    decreases named@.len(),
                {
                    let (_, root) = named.remove(0);
                    roots.push(root);
                }
                assert(roots@.map_values(|c: Root| c@) =~= c.map_values(|p: (Seq<char>, RootView)| p.1));
                match Root::merge_note_events_vec(&roots) {
                    Some(merged) => Ok(merged),
                    None => Err(ConvertError::NothingToMerge),
                }
            },
        }
    }
}

} // verus!
