//! Fixed-point units.
//!
//! Time on the timeline is counted in *units*: one beat is 9 000 000 of them.
//! That number is the smallest for which a tick (an eighteenth of a beat), a
//! millisecond of lead trim at any whole tempo (a sixty-thousandth of a beat
//! per beat-per-minute) and a millionth of a beat (the resolution of the
//! numbers written in a chart) are all whole numbers of units, so nothing the
//! engine computes on offsets is ever rounded.
//!
//! Scroll speeds are counted in millionths.

use vstd::prelude::*;

verus! {

/// Units in one beat.
pub const UNITS_PER_BEAT: i64 = 9_000_000;

/// Logic ticks in one beat.
pub const TICKS_PER_BEAT: i64 = 18;

/// Units by which every offset falls in one tick.
pub const UNITS_PER_TICK: i64 = 500_000;

/// Millionths in one: the scale of chart numbers and of scroll speeds.
pub const MICROS: i64 = 1_000_000;

/// Units in one millionth of a beat.
pub const UNITS_PER_MICRO: i64 = 9;

/// Units by which a millisecond of lead trim moves the timeline at one beat
/// per minute.
pub const UNITS_PER_MS_BPM: i64 = 150;

/// The constants fit together: a beat is eighteen ticks, a million
/// millionths, and sixty thousand milliseconds at one beat per minute.
pub proof fn lemma_units_agree()
    ensures
        UNITS_PER_TICK * TICKS_PER_BEAT == UNITS_PER_BEAT,
        UNITS_PER_MICRO * MICROS == UNITS_PER_BEAT,
        UNITS_PER_MS_BPM * 60_000 == UNITS_PER_BEAT,
{
}

} // verus!
