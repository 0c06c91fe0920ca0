//! A pairing of a read end and a write end into one object.
//!
//! The combined value adds no semantics of its own: reads concern only the
//! read end, writes only the write end, and seeking concerns both. The
//! forwarding of stream traffic itself is I/O and lives outside the
//! verified library; here the pair is built and taken apart.

use vstd::prelude::*;

verus! {

/// A read end and a write end carried as a single object.
pub struct Combine<R, W> {
    reader: R,
    writer: W,
}

impl<R, W> Combine<R, W> {
    /// The read end.
    pub closed spec fn read_end(&self) -> R {
        self.reader
    }

    /// The write end.
    pub closed spec fn write_end(&self) -> W {
        self.writer
    }

    /// Creates a new combined object from its two ends.
    pub fn new(read_end: R, write_end: W) -> (r: Combine<R, W>)
        ensures
            r.read_end() == read_end,
            r.write_end() == write_end,
    {
        Combine { reader: read_end, writer: write_end }
    }

    /// Takes the combined object apart into its two ends, unchanged.
    pub fn into_parts(self) -> (r: (R, W))
        ensures
            r.0 == self.read_end(),
            r.1 == self.write_end(),
    {
        (self.reader, self.writer)
    }
}

} // verus!
