//! Regions of the keyboard that the stretch curve and the pitch-raise
//! overpull treat differently. A key's position on the keyboard is
//! `t = key / 87`, from `0` at A0 to `1` at C8.

use vstd::prelude::*;

verus! {

/// Is `key` in the bass half of the keyboard (`t < 0.5`), where the curve
/// goes flat rather than sharp?
pub fn is_bass_half(key: usize) -> (bass: bool)
    ensures
        bass == (2 * key < 87),
{
    key < 44
}

/// Does `key` lie in the bass (`t < 0.3`) or the extreme treble
/// (`t > 0.85`), which settle more after a pitch raise?
pub fn is_overpull_outer_region(key: usize) -> (outer: bool)
    ensures
        outer == (10 * key < 3 * 87 || 100 * key > 85 * 87),
{
    key <= 26 || key >= 74
}

/// Does `key` have a key an octave below it on the keyboard?
pub fn has_octave_below(key: usize) -> (below: bool)
    ensures
        below == (key >= 12),
{
    key >= 12
}

} // verus!
