//! Stamping, classifying and merging the tracks of a file.
use vstd::prelude::*;
use crate::event::{TrackEvent, StampedEvent, OffsetEvent, is_note_kind, is_meter_kind};
use crate::timing::offset_sum;
use crate::ordering::{is_sorted_by, is_total_preorder, insert_ordered, sort_ordered, lemma_insert_ordered_split, lemma_insert_ordered_stop};

verus! {

/// The sum of the deltas of the first `k` events of a track.
pub open spec fn delta_sum(track: Seq<TrackEvent>, k: int) -> int
    decreases k,
{
    if k <= 0 || k > track.len() {
        0
    } else {
        delta_sum(track, k - 1) + track[k - 1].delta
    }
}

/// Prefix sums of deltas never decrease.
pub proof fn lemma_delta_sum_monotone(track: Seq<TrackEvent>, i: int, j: int)
    requires
        0 <= i <= j <= track.len(),
    ensures
        delta_sum(track, i) <= delta_sum(track, j),
    decreases j - i,
{
    if i < j {
        lemma_delta_sum_monotone(track, i, j - 1);
    }
}

/// Stamps each event with its absolute tick: the running sum of the deltas
/// up to and including it. Returns `None` when that sum does not fit in a
/// `u64`.
pub fn track_to_stamped<'a>(track: &'a Vec<TrackEvent>) -> (r: Option<Vec<StampedEvent<'a>>>)
    ensures
        r is None <==> delta_sum(track@, track@.len() as int) > u64::MAX,
        r matches Some(v) ==> v@ == stamped_spec::<'a>(track@),
        r matches Some(v) ==> v@.len() == track@.len() && forall|k: int|
            0 <= k < v@.len() ==> *v@[k].event == track@[k]
                && v@[k].ticks_elapsed == delta_sum(track@, k + 1),
{
    let mut total_ticks: u64 = 0;
    let mut ret: Vec<StampedEvent<'a>> = Vec::new();
    let mut i: usize = 0;
    while i < track.len()
        invariant
            0 <= i <= track@.len(),
            ret@.len() == i,
            total_ticks == delta_sum(track@, i as int),
            forall|k: int|
                0 <= k < i ==> *ret@[k].event == track@[k]
                    && ret@[k].ticks_elapsed == delta_sum(track@, k + 1),
        decreases track@.len() - i,
    {
        let event = &track[i];
        match total_ticks.checked_add(event.delta as u64) {
            Some(t) => {
                total_ticks = t;
            },
            None => {
                proof {
                    lemma_delta_sum_monotone(track@, i + 1, track@.len() as int);
                }
                return None;
            },
        }
        ret.push(StampedEvent { event, ticks_elapsed: total_ticks });
        i += 1;
    }
    assert(ret@ =~= stamped_spec::<'a>(track@));
    Some(ret)
}


/// The contents of each of several vectors.
pub open spec fn views_of<'a>(ts: Seq<Vec<StampedEvent<'a>>>) -> Seq<Seq<StampedEvent<'a>>> {
    Seq::new(ts.len(), |i: int| ts[i]@)
}

/// A data track holds no note-on or note-off event.
pub open spec fn is_data_track_spec<'a>(track: Seq<StampedEvent<'a>>) -> bool {
    forall|i: int| 0 <= i < track.len() ==> !is_note_kind(#[trigger] track[i].event.kind)
}

/// The tempo and time-signature events of a track, in track order.
pub open spec fn meter_events<'a>(track: Seq<StampedEvent<'a>>) -> Seq<StampedEvent<'a>>
    decreases track.len(),
{
    if track.len() == 0 {
        Seq::empty()
    } else if is_meter_kind(track.last().event.kind) {
        meter_events(track.drop_last()).push(track.last())
    } else {
        meter_events(track.drop_last())
    }
}

/// The tempo and time-signature events of all tracks, track after track.
pub open spec fn meter_pool<'a>(tracks: Seq<Seq<StampedEvent<'a>>>) -> Seq<StampedEvent<'a>>
    decreases tracks.len(),
{
    if tracks.len() == 0 {
        Seq::empty()
    } else {
        meter_pool(tracks.drop_last()) + meter_events(tracks.last())
    }
}

/// Orders stamped events by absolute tick.
pub open spec fn by_ticks<'a>() -> spec_fn(StampedEvent<'a>, StampedEvent<'a>) -> bool {
    |a: StampedEvent<'a>, b: StampedEvent<'a>| a.ticks_elapsed <= b.ticks_elapsed
}

/// A track's own events followed by the pooled events, stably sorted by tick.
pub open spec fn merged_events<'a>(
    track: Seq<StampedEvent<'a>>,
    pool: Seq<StampedEvent<'a>>,
) -> Seq<StampedEvent<'a>> {
    sort_ordered(track + pool, by_ticks())
}

/// Each event paired with its tick distance from the event before it; the
/// first event gets zero.
pub open spec fn offsets_of<'a>(s: Seq<StampedEvent<'a>>) -> Seq<OffsetEvent<'a>> {
    Seq::new(
        s.len(),
        |k: int|
            OffsetEvent {
                event: s[k].event,
                delta: if k == 0 {
                    0u64
                } else {
                    (s[k].ticks_elapsed - s[k - 1].ticks_elapsed) as u64
                },
            },
    )
}

/// Whether the track holds no note-on or note-off event.
pub fn is_data_track<'a>(track: &Vec<StampedEvent<'a>>) -> (r: bool)
    ensures
        r == is_data_track_spec(track@),
{
    let mut i: usize = 0;
    while i < track.len()
        invariant
            0 <= i <= track@.len(),
            forall|k: int| 0 <= k < i ==> !is_note_kind(#[trigger] track@[k].event.kind),
        decreases track@.len() - i,
    {
        if track[i].event.kind.is_note() {
            return false;
        }
        i += 1;
    }
    true
}

/// Collects the tempo and time-signature events of every track, keeping
/// each one's absolute tick.
pub fn get_meta_events<'a>(tracks: &Vec<Vec<StampedEvent<'a>>>) -> (r: Vec<StampedEvent<'a>>)
    ensures
        r@ == meter_pool(views_of(tracks@)),
{
    let ghost views = views_of(tracks@);
    let mut ret: Vec<StampedEvent<'a>> = Vec::new();
    let mut i: usize = 0;
    while i < tracks.len()
        invariant
            0 <= i <= tracks@.len(),
            views == views_of(tracks@),
            ret@ == meter_pool(views.take(i as int)),
        decreases tracks@.len() - i,
    {
        let track = &tracks[i];
        let ghost before = ret@;
        let mut j: usize = 0;
        while j < track.len()
            invariant
                0 <= j <= track@.len(),
                ret@ == before + meter_events(track@.take(j as int)),
            decreases track@.len() - j,
        {
            let e = track[j];
            assert(track@.take(j + 1).drop_last() =~= track@.take(j as int));
            if e.event.kind.is_meter() {
                ret.push(e);
                assert(ret@ =~= before + meter_events(track@.take(j + 1)));
            }
            j += 1;
        }
        assert(track@.take(j as int) =~= track@);
        assert(views.take(i + 1).drop_last() =~= views.take(i as int));
        i += 1;
    }
    assert(views.take(i as int) =~= views);
    ret
}

/// Inserts `x` after every event whose tick is not later than its own.
fn insert_by_ticks<'a>(r: &mut Vec<StampedEvent<'a>>, x: StampedEvent<'a>)
    ensures
        final(r)@ == insert_ordered(old(r)@, x, by_ticks()),
{
    let mut j: usize = r.len();
    proof {
        assert(r@.subrange(0, r@.len() as int) =~= r@);
        assert(r@ + r@.subrange(r@.len() as int, r@.len() as int) =~= r@);
    }
    while j > 0 && r[j - 1].ticks_elapsed > x.ticks_elapsed
        invariant
            j <= r@.len(),
            r@ == old(r)@,
            insert_ordered(r@, x, by_ticks()) == insert_ordered(r@.subrange(0, j as int), x, by_ticks())
                + r@.subrange(j as int, r@.len() as int),
        decreases j,
    {
        proof {
            lemma_insert_ordered_split(r@, x, by_ticks(), j as int);
        }
        j -= 1;
    }
    proof {
        lemma_insert_ordered_stop(r@, x, by_ticks(), j as int);
    }
    r.insert(j, x);
}

/// Concatenates `a` and `b`, then sorts the result stably by tick: at equal
/// ticks, events of `a` come before those of `b`.
pub fn merge_events<'a>(a: Vec<StampedEvent<'a>>, b: Vec<StampedEvent<'a>>) -> (r: Vec<StampedEvent<'a>>)
    ensures
        r@ == merged_events(a@, b@),
{
    let mut all = a;
    let mut b = b;
    all.append(&mut b);
    let ghost joined = all@;
    let mut ret: Vec<StampedEvent<'a>> = Vec::new();
    let mut i: usize = 0;
    while i < all.len()
        invariant
            0 <= i <= all@.len(),
            all@ == joined,
            ret@ == sort_ordered(joined.take(i as int), by_ticks()),
        decreases all@.len() - i,
    {
        assert(joined.take(i + 1).drop_last() =~= joined.take(i as int));
        assert(joined.take(i + 1).last() == joined[i as int]);
        insert_by_ticks(&mut ret, all[i]);
        i += 1;
    }
    assert(joined.take(i as int) =~= joined);
    ret
}

/// Rebuilds delta-times from absolute ticks: the first event gets zero and
/// each later one the tick distance from its predecessor.
pub fn to_offsets<'a>(track: &Vec<StampedEvent<'a>>) -> (r: Vec<OffsetEvent<'a>>)
    requires
        is_sorted_by(track@, by_ticks()),
    ensures
        r@ == offsets_of(track@),
{
    let mut ret: Vec<OffsetEvent<'a>> = Vec::new();
    let mut x: usize = 0;
    while x < track.len()
        invariant
            0 <= x <= track@.len(),
            is_sorted_by(track@, by_ticks()),
            ret@ == offsets_of(track@).take(x as int),
        decreases track@.len() - x,
    {
        let current = track[x];
        let delta: u64 = if x == 0 {
            0
        } else {
            assert(by_ticks()(track@[x - 1], track@[x as int]));
            current.ticks_elapsed - track[x - 1].ticks_elapsed
        };
        ret.push(OffsetEvent { event: current.event, delta });
        assert(ret@ =~= offsets_of(track@).take(x + 1));
        x += 1;
    }
    assert(ret@ =~= offsets_of(track@));
    ret
}

} // verus!

verus! {

/// Copies a sequence of stamped events.
pub fn copy_stamped<'a>(v: &Vec<StampedEvent<'a>>) -> (r: Vec<StampedEvent<'a>>)
    ensures
        r@ == v@,
{
    let mut r: Vec<StampedEvent<'a>> = Vec::new();
    let mut i: usize = 0;
    while i < v.len()
        invariant
            0 <= i <= v@.len(),
            r@ == v@.take(i as int),
        decreases v@.len() - i,
    {
        r.push(v[i]);
        assert(r@ =~= v@.take(i + 1));
        i += 1;
    }
    assert(v@.take(i as int) =~= v@);
    r
}

/// Ordering by tick is total and transitive.
pub proof fn lemma_by_ticks_total_preorder<'a>()
    ensures
        is_total_preorder(by_ticks::<'a>()),
{
}

/// In a sequence sorted by tick, the deltas of the first `k` offsets add up
/// to the distance from the first event to the `k`-th.
pub proof fn lemma_offsets_sum<'a>(s: Seq<StampedEvent<'a>>, k: int)
    requires
        is_sorted_by(s, by_ticks()),
        1 <= k <= s.len(),
    ensures
        offset_sum(offsets_of(s).take(k)) == s[k - 1].ticks_elapsed - s[0].ticks_elapsed,
    decreases k,
{
    let o = offsets_of(s);
    assert(o.take(k).drop_last() =~= o.take(k - 1));
    assert(o.take(k).last() == o[k - 1]);
    assert(offset_sum(o.take(k)) == offset_sum(o.take(k - 1)) + o[k - 1].delta);
    if k > 1 {
        lemma_offsets_sum(s, k - 1);
        assert(by_ticks()(s[k - 2], s[k - 1]));
        assert(s[k - 2].ticks_elapsed <= s[k - 1].ticks_elapsed);
        assert(o[k - 1].delta == s[k - 1].ticks_elapsed - s[k - 2].ticks_elapsed);
    } else {
        assert(o.take(0) =~= Seq::<OffsetEvent<'a>>::empty());
        assert(o[0].delta == 0);
    }
}

} // verus!

verus! {

/// Each event of a track stamped with its absolute tick.
pub open spec fn stamped_spec<'a>(track: Seq<TrackEvent>) -> Seq<StampedEvent<'a>> {
    Seq::new(
        track.len(),
        |k: int| StampedEvent { event: &track[k], ticks_elapsed: delta_sum(track, k + 1) as u64 },
    )
}

} // verus!
