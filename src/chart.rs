//! Chart documents: beat-timed notes and the tempo/meter timeline.
use vstd::prelude::*;
use crate::ordering::{
    insert_ordered, sort_ordered, is_sorted_by, is_total_preorder, lemma_insert_ordered_split,
    lemma_insert_ordered_stop, lemma_sort_ordered,
};

verus! {

/// A position in beats, held exactly as `ticks / ticks_per_beat`.
/// A zero `ticks_per_beat` means that no beat length was known, and the
/// position is beat zero.
#[derive(Clone, Copy, PartialEq, Eq, Structural)]
pub struct BeatTime {
    pub ticks: u64,
    pub ticks_per_beat: u64,
}

/// The numerator of a beat position, as a fraction.
pub open spec fn beat_num(t: BeatTime) -> int {
    if t.ticks_per_beat == 0 {
        0
    } else {
        t.ticks as int
    }
}

/// The (positive) denominator of a beat position, as a fraction.
pub open spec fn beat_den(t: BeatTime) -> int {
    if t.ticks_per_beat == 0 {
        1
    } else {
        t.ticks_per_beat as int
    }
}

/// `a` is not later than `b`, comparing the fractions exactly.
pub open spec fn beat_le(a: BeatTime, b: BeatTime) -> bool {
    beat_num(a) * beat_den(b) <= beat_num(b) * beat_den(a)
}

impl BeatTime {
    /// Whether `self` is not later than `other`.
    pub fn not_after(&self, other: &BeatTime) -> (r: bool)
        ensures
            r == beat_le(*self, *other),
    {
        let (an, ad): (u64, u64) = if self.ticks_per_beat == 0 {
            (0, 1)
        } else {
            (self.ticks, self.ticks_per_beat)
        };
        let (bn, bd): (u64, u64) = if other.ticks_per_beat == 0 {
            (0, 1)
        } else {
            (other.ticks, other.ticks_per_beat)
        };
        proof {
            lemma_product_fits(an, bd);
            lemma_product_fits(bn, ad);
        }
        let l: u128 = (an as u128) * (bd as u128);
        let r: u128 = (bn as u128) * (ad as u128);
        l <= r
    }
}

/// The product of two `u64` values fits in a `u128`.
proof fn lemma_product_fits(x: u64, y: u64)
    ensures
        (x as int) * (y as int) <= u128::MAX,
{
    assert((x as int) * (y as int) <= (u64::MAX as int) * (u64::MAX as int)) by (nonlinear_arith)
        requires
            0 <= x <= u64::MAX,
            0 <= y <= u64::MAX,
    ;
}

/// Comparing beat positions exactly is a total preorder.
pub proof fn lemma_beat_le_total_preorder()
    ensures
        forall|a: BeatTime, b: BeatTime| #[trigger] beat_le(a, b) || beat_le(b, a),
        forall|a: BeatTime, b: BeatTime, c: BeatTime|
            #[trigger] beat_le(a, b) && #[trigger] beat_le(b, c) ==> beat_le(a, c),
{
    assert forall|a: BeatTime, b: BeatTime, c: BeatTime|
        #[trigger] beat_le(a, b) && #[trigger] beat_le(b, c) implies beat_le(a, c) by {
        let (na, da, nb, db, nc, dc) = (
            beat_num(a),
            beat_den(a),
            beat_num(b),
            beat_den(b),
            beat_num(c),
            beat_den(c),
        );
        assert(na * dc <= nc * da) by (nonlinear_arith)
            requires
                na * db <= nb * da,
                nb * dc <= nc * db,
                da > 0,
                db > 0,
                dc > 0,
        {
            assert(na * db * dc <= nb * da * dc);
            assert(nb * dc * da <= nc * db * da);
        }
    }
}

/// A note of the chart.
#[derive(Clone, Copy, PartialEq, Eq, Structural)]
pub struct Note {
    pub time: BeatTime,
    pub line_index: i64,
    pub line_layer: i64,
    pub type_field: i64,
    pub cut_direction: i64,
}

/// An entry of the tempo/meter timeline. The tempo is held as microseconds
/// per quarter note; the beats per minute are `60_000_000 / micros_per_beat`.
#[derive(Clone, Copy, PartialEq, Eq, Structural)]
pub struct Bpmchange {
    pub micros_per_beat: u32,
    pub time: BeatTime,
    pub beats_per_bar: i64,
    pub metronome_offset: i64,
}

/// The chart's custom data: a fixed time field and the tempo timeline.
pub struct CustomData {
    pub time: i64,
    pub bpmchanges: Vec<Bpmchange>,
}

/// A chart document.
pub struct Root {
    pub version: String,
    pub custom_data: CustomData,
    pub notes: Vec<Note>,
}

/// The contents of a chart.
pub struct RootView {
    pub version: Seq<char>,
    pub time: i64,
    pub bpmchanges: Seq<Bpmchange>,
    pub notes: Seq<Note>,
}

impl View for Root {
    type V = RootView;

    open spec fn view(&self) -> RootView {
        RootView {
            version: self.version@,
            time: self.custom_data.time,
            bpmchanges: self.custom_data.bpmchanges@,
            notes: self.notes@,
        }
    }
}

/// Orders notes by beat position.
pub open spec fn by_time() -> spec_fn(Note, Note) -> bool {
    |a: Note, b: Note| beat_le(a.time, b.time)
}

/// The notes of all charts, chart after chart.
pub open spec fn all_notes(charts: Seq<RootView>) -> Seq<Note>
    decreases charts.len(),
{
    if charts.len() == 0 {
        Seq::empty()
    } else {
        all_notes(charts.drop_last()) + charts.last().notes
    }
}

/// The chart that merging `charts` yields: the first chart, with the notes of
/// all charts stably sorted by time.
pub open spec fn merged_chart(charts: Seq<RootView>) -> RootView
    recommends
        charts.len() > 0,
{
    RootView { notes: sort_ordered(all_notes(charts), by_time()), ..charts[0] }
}

/// Merging charts yields their notes in non-decreasing time order, each
/// note of every chart exactly as often as it occurs there.
pub proof fn lemma_merged_notes_ordered(charts: Seq<RootView>)
    requires
        charts.len() > 0,
    ensures
        is_sorted_by(merged_chart(charts).notes, by_time()),
        merged_chart(charts).notes.to_multiset() == all_notes(charts).to_multiset(),
        merged_chart(charts).bpmchanges == charts[0].bpmchanges,
{
    lemma_beat_le_total_preorder();
    assert(is_total_preorder(by_time()));
    lemma_sort_ordered(all_notes(charts), by_time());
}

/// Copies a tempo timeline entry by entry.
pub fn copy_changes(v: &Vec<Bpmchange>) -> (r: Vec<Bpmchange>)
    ensures
        r@ == v@,
{
    let mut r: Vec<Bpmchange> = Vec::new();
    let mut i: usize = 0;
    while i < v.len()
        invariant
            0 <= i <= v@.len(),
            r@ == v@.take(i as int),
        decreases v@.len() - i,
    {
        r.push(v[i]);
        assert(r@ =~= v@.take(i + 1));
        i += 1;
    }
    assert(v@.take(i as int) =~= v@);
    r
}

/// Inserts `x` after every note whose time is not later than its own.
fn insert_by_time(r: &mut Vec<Note>, x: Note)
    ensures
        final(r)@ == insert_ordered(old(r)@, x, by_time()),
{
    let mut j: usize = r.len();
    proof {
        assert(r@.subrange(0, r@.len() as int) =~= r@);
        assert(r@ + r@.subrange(r@.len() as int, r@.len() as int) =~= r@);
    }
    while j > 0 && !r[j - 1].time.not_after(&x.time)
        invariant
            j <= r@.len(),
            r@ == old(r)@,
            insert_ordered(r@, x, by_time()) == insert_ordered(r@.subrange(0, j as int), x, by_time())
                + r@.subrange(j as int, r@.len() as int),
        decreases j,
    {
        proof {
            lemma_insert_ordered_split(r@, x, by_time(), j as int);
        }
        j -= 1;
    }
    proof {
        lemma_insert_ordered_stop(r@, x, by_time(), j as int);
    }
    r.insert(j, x);
}

impl Root {
    /// Merges the notes of several charts into one chart. The first chart is
    /// the template: its version and tempo timeline are kept, and its notes
    /// are replaced by those of all charts, stably sorted by time. Returns
    /// `None` when there is no chart.
    pub fn merge_note_events_vec(data: &Vec<Root>) -> (r: Option<Root>)
        ensures
            r is None <==> data@.len() == 0,
            r matches Some(m) ==> m@ == merged_chart(data@.map_values(|c: Root| c@)),
    {
        if data.len() == 0 {
            return None;
        }
        let ghost views = data@.map_values(|c: Root| c@);
        let mut notes: Vec<Note> = Vec::new();
        let mut i: usize = 0;
        while i < data.len()
            invariant
                0 <= i <= data@.len(),
                views == data@.map_values(|c: Root| c@),
                notes@ == sort_ordered(all_notes(views.take(i as int)), by_time()),
            decreases data@.len() - i,
        {
            let ghost before = all_notes(views.take(i as int));
            let d = &data[i];
            assert(views.take(i + 1).drop_last() =~= views.take(i as int));
            assert(all_notes(views.take(i + 1)) == before + d.notes@);
            let mut j: usize = 0;
            while j < d.notes.len()
                invariant
                    0 <= j <= d.notes@.len(),
                    notes@ == sort_ordered(before + d.notes@.take(j as int), by_time()),
                decreases d.notes@.len() - j,
            {
                let ghost s = before + d.notes@.take(j + 1);
                assert(s.drop_last() =~= before + d.notes@.take(j as int));
                assert(s.last() == d.notes@[j as int]);
                insert_by_time(&mut notes, d.notes[j]);
                j += 1;
            }
            assert(d.notes@.take(j as int) =~= d.notes@);
            i += 1;
        }
        assert(views.take(i as int) =~= views);
        let first = &data[0];
        let merged = Root {
            version: first.version.clone(),
            custom_data: CustomData {
                time: first.custom_data.time,
                bpmchanges: copy_changes(&first.custom_data.bpmchanges),
            },
            notes,
        };
        proof {
            assert(merged@ =~= merged_chart(views));
        }
        Some(merged)
    }
}

} // verus!
