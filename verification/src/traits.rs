//! The decision core of the fill-to-capacity read loop.
//!
//! A fill loop reads into the unfilled tail of a buffer as often as the
//! source keeps yielding bytes and the buffer is not yet full, and reports
//! how many bytes arrived in all. The reads themselves are I/O and live
//! outside the verified library; the accounting and the stopping rule are
//! here.

use vstd::prelude::*;

verus! {

/// One accounting step of a fill loop: after a read into the tail of a
/// buffer of length `buf_len`, whose first `total` bytes were already
/// filled, returned `len` bytes, add them to the running total and decide
/// whether to read again. Reading goes on exactly while the last read made
/// progress and the buffer is still not full, so a finished loop has
/// either filled the buffer or seen the source dry up.
pub fn fill_step(total: usize, len: usize, buf_len: usize) -> (r: (usize, bool))
    requires
        total + len <= buf_len,
    ensures
        r.0 == total + len,
        r.1 == (len > 0 && total + len < buf_len),
{
    (total + len, len > 0 && total + len < buf_len)
}

} // verus!
