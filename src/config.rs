//! Configuration read by the conversion: the drum map and the output
//! file extension.
use vstd::prelude::*;

verus! {

/// The drum map (MIDI pitch per lane, by position) and the extension given
/// to files written in per-track mode.
pub struct Config {
    pub drum_map: Vec<u8>,
    pub batch_output_extension: String,
}

impl Default for Config {
    /// Pitches 60 to 63 on lanes 0 to 3, and the extension `.dat`.
    fn default() -> (r: Config)
        ensures
            r.drum_map@ == seq![60u8, 61u8, 62u8, 63u8],
            r.batch_output_extension@ == seq!['.', 'd', 'a', 't'],
    {
        let mut drum_map: Vec<u8> = Vec::new();
        let mut pitch: u8 = 60;
        while pitch < 64
            invariant
                60 <= pitch <= 64,
                drum_map@.len() == pitch - 60,
                forall|i: int| 0 <= i < drum_map@.len() ==> drum_map@[i] == 60 + i,
            decreases 64 - pitch,
        {
            drum_map.push(pitch);
            pitch += 1;
        }
        assert(drum_map@ =~= seq![60u8, 61u8, 62u8, 63u8]);
        let batch_output_extension = String::from_str(".dat");
        proof {
            reveal_strlit(".dat");
        }
        Config { drum_map, batch_output_extension }
    }
}

/// The lane of a pitch: the first position of the drum map that holds it,
/// or lane 0 when no position does.
pub open spec fn lane_of(map: Seq<u8>, key: u8) -> int {
    if exists|i: int| 0 <= i < map.len() && map[i] == key {
        choose|i: int|
            0 <= i < map.len() && map[i] == key && forall|j: int| 0 <= j < i ==> map[j] != key
    } else {
        0
    }
}

/// A position that holds the pitch, with none before it, is its lane.
proof fn lemma_lane_of_first(m: Seq<u8>, key: u8, i: int)
    requires
        0 <= i < m.len(),
        m[i] == key,
        forall|j: int| 0 <= j < i ==> m[j] != key,
    ensures
        lane_of(m, key) == i,
{
    assert(exists|k: int| 0 <= k < m.len() && m[k] == key);
    assert(exists|c: int|
        0 <= c < m.len() && m[c] == key && forall|j: int| 0 <= j < c ==> m[j] != key);
    let c = choose|c: int|
        0 <= c < m.len() && m[c] == key && forall|j: int| 0 <= j < c ==> m[j] != key;
    if c < i {
        assert(m[c] != key);
    } else if c > i {
        assert(m[i] != key);
    }
}

/// Looks a pitch up in the drum map.
pub fn lane_index(drum_map: &Vec<u8>, key: u8) -> (r: i64)
    requires
        drum_map@.len() <= i64::MAX,
    ensures
        r == lane_of(drum_map@, key),
        !drum_map@.contains(key) ==> r == 0,
        drum_map@.contains(key) ==> drum_map@[r as int] == key && forall|j: int|
            0 <= j < r ==> drum_map@[j] != key,
{
    let mut i: usize = 0;
    while i < drum_map.len()
        invariant
            0 <= i <= drum_map@.len(),
            drum_map@.len() <= i64::MAX,
            forall|j: int| 0 <= j < i ==> drum_map@[j] != key,
        decreases drum_map@.len() - i,
    {
        if drum_map[i] == key {
            proof {
                lemma_lane_of_first(drum_map@, key, i as int);
            }
            return i as i64;
        }
        i += 1;
    }
    proof {
        if drum_map@.contains(key) {
            let k = choose|k: int| 0 <= k < drum_map@.len() && drum_map@[k] == key;
            assert(drum_map@[k] != key);
        }
    }
    0
}

} // verus!
