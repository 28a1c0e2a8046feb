//! Parameter checks of the FFT pitch detector.

use vstd::prelude::*;

verus! {

/// Highest partial number the detector will look for.
pub const MAX_PARTIAL: u32 = 8;

/// Can a detector be built for this FFT size (non-zero and even)?
pub fn is_valid_fft_size(fft_size: usize) -> (valid: bool)
    ensures
        valid == (fft_size != 0 && fft_size % 2 == 0),
{
    fft_size != 0 && fft_size % 2 == 0
}

/// Start of the most recent `fft_size` samples of a buffer of `len`
/// samples, or `None` when the buffer is shorter than that.
pub fn frame_start(len: usize, fft_size: usize) -> (start: Option<usize>)
    ensures
        start == (if len < fft_size { None } else { Some((len - fft_size) as usize) }),
{
    if len < fft_size {
        None
    } else {
        Some(len - fft_size)
    }
}

/// Bins searched for a partial expected near bin `expected_bin`: `search`
/// bins either side, kept off the first bin and the last two bins of a
/// half spectrum of `half` bins; `None` when nothing is left.
pub fn partial_search_window(expected_bin: usize, search: usize, half: usize) -> (window: Option<(usize, usize)>)
    requires
        expected_bin + 2 < half,
        expected_bin + search <= usize::MAX,
    ensures
        ({
            let lo = if expected_bin - search >= 1 { expected_bin - search } else { 1 };
            let hi = if expected_bin + search <= half - 2 { expected_bin + search } else { half - 2 };
            window == (if lo < hi { Some((lo as usize, hi as usize)) } else { None })
        }),
{
    let lo = if expected_bin > search {
        expected_bin - search
    } else {
        0
    };
    let lo = if lo < 1 {
        1
    } else {
        lo
    };
    let hi = if expected_bin + search < half - 2 {
        expected_bin + search
    } else {
        half - 2
    };
    if lo < hi {
        Some((lo, hi))
    } else {
        None
    }
}

} // verus!
