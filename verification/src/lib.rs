//! Platform-independent piano tuning logic: key naming, temperament
//! presets, tuning-file checks and timestamps, the tuning library's file
//! naming, the capture ring buffer and the tuner's key selection.

pub mod audio;
pub mod calendar;
pub mod cents;
pub mod pitch_detection;
pub mod state;
pub mod storage;
pub mod temperament;
pub mod text;
pub mod tuning_curve;
pub mod tuning_file;

use vstd::prelude::*;

verus! {

/// Number of keys on a standard piano (A0..C8).
pub const NUM_KEYS: usize = 88;

/// Key index of A4, the tuning reference key.
pub const A4_KEY_INDEX: usize = 48;

} // verus!
