//! The chromatic scale: the frequency of every semitone the player knows.

use vstd::prelude::*;

verus! {

/// The number of semitones in the table: nine octaves of twelve.
pub const SEMITONES: usize = 108;

/// The equal-tempered scale in millihertz, from C of octave 0 up to B of
/// octave 8, with A of octave 4 at 440 Hz. Each value is a whole number of
/// hundredths of a hertz.
pub const FREQUENCIES: [i64; 108] = [
    // octave 0
    16350, 17320, 18350, 19450, 20600, 21830,
    23120, 24500, 25960, 27500, 29140, 30870,
    // octave 1
    32700, 34650, 36710, 38890, 41200, 43650,
    46250, 49000, 51910, 55000, 58270, 61740,
    // octave 2
    65410, 69300, 73420, 77780, 82410, 87310,
    92500, 98000, 103830, 110000, 116540, 123470,
    // octave 3
    130810, 138590, 146830, 155560, 164810, 174610,
    185000, 196000, 207650, 220000, 233080, 246940,
    // octave 4
    261630, 277180, 293660, 311130, 329630, 349230,
    369990, 392000, 415300, 440000, 466160, 493880,
    // octave 5
    523250, 554370, 587330, 622250, 659260, 698460,
    739990, 783990, 830610, 880000, 932330, 987770,
    // octave 6
    1046500, 1108730, 1174660, 1244510, 1318510, 1396910,
    1479980, 1567980, 1661220, 1760000, 1864660, 1975530,
    // octave 7
    2093000, 2217460, 2349320, 2489020, 2637020, 2793830,
    2959960, 3135960, 3322440, 3520000, 3729310, 3951070,
    // octave 8
    4186010, 4434920, 4698640, 4978030, 5274040, 5587650,
    5919910, 6271930, 6644880, 7040000, 7458620, 7902130,
];

/// The frequency at `index` of the table, if there is one.
pub open spec fn spec_frequency(index: int) -> Option<i64> {
    if 0 <= index < 108 {
        Some(FREQUENCIES@[index])
    } else {
        None
    }
}

/// Looks `index` up in the table.
pub fn frequency(index: usize) -> (found: Option<i64>)
    ensures
        found == spec_frequency(index as int),
{
    if index < SEMITONES {
        Some(FREQUENCIES[index])
    } else {
        None
    }
}

/// The table rises from each semitone to the next, and a semitone an octave
/// up has twice the frequency, to within a hundredth of a hertz.
pub proof fn lemma_table_rises()
    ensures
        forall|i: int| 0 <= i < 107 ==> FREQUENCIES@[i] < #[trigger] FREQUENCIES@[i + 1],
        forall|i: int|
            0 <= i < 96 ==> -10 <= #[trigger] FREQUENCIES@[i + 12] - 2 * FREQUENCIES@[i] <= 10,
        spec_frequency(57) == Some(440_000i64),
{
}

} // verus!
