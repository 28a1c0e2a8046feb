//! The capture ring buffer: a fixed number of the most recent samples.

use vstd::prelude::*;

verus! {

/// Append `data` to the ring buffer `ring`, keeping its length and dropping
/// the oldest items: afterwards `ring` holds the last `ring.len()` items of
/// the old contents followed by `data`.
///
/// Safe to call with buffers of any length, including ones larger than the
/// ring buffer itself.
pub fn push_newest<T: Copy>(ring: &mut Vec<T>, data: &[T])
    ensures
        final(ring)@.len() == old(ring)@.len(),
        final(ring)@ == (old(ring)@ + data@).subrange(
            data@.len() as int,
            (data@.len() + old(ring)@.len()) as int,
        ),
{
    let n = ring.len();
    let d = data.len();
    let ghost all = old(ring)@ + data@;
    if d == 0 {
        assert(all.subrange(0, n as int) =~= old(ring)@);
        return;
    }
    if d >= n {
        let mut i: usize = 0;
        while i < n
            invariant
                n == ring.len(),
                d == data@.len(),
                d >= n,
                i <= n,
                all == old(ring)@ + data@,
                old(ring)@.len() == n,
                forall|j: int| 0 <= j < i ==> ring@[j] == all[j + d],
            decreases n - i,
        {
            assert(all[i + d] == data@[d - n + i]);
            ring.set(i, data[d - n + i]);
            i = i + 1;
        }
    } else {
        let keep = n - d;
        let mut i: usize = 0;
        while i < keep
            invariant
                n == ring.len(),
                d == data@.len(),
                keep == n - d,
                i <= keep,
                all == old(ring)@ + data@,
                old(ring)@.len() == n,
                forall|j: int| 0 <= j < i ==> ring@[j] == all[j + d],
                forall|j: int| i <= j < n ==> ring@[j] == old(ring)@[j],
            decreases keep - i,
        {
            let x = ring[i + d];
            assert(all[i + d] == old(ring)@[i + d]);
            ring.set(i, x);
            i = i + 1;
        }
        let mut k: usize = 0;
        while k < d
            invariant
                n == ring.len(),
                d == data@.len(),
                keep == n - d,
                k <= d,
                all == old(ring)@ + data@,
                old(ring)@.len() == n,
                forall|j: int| 0 <= j < keep + k ==> ring@[j] == all[j + d],
            decreases d - k,
        {
            assert(all[keep + k + d] == data@[k as int]);
            ring.set(keep + k, data[k]);
            k = k + 1;
        }
    }
    assert(ring@ =~= all.subrange(d as int, d + n));
}

} // verus!
