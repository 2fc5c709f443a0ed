//! Marker traits describing what is known of a source's extent.

use vstd::prelude::*;

use crate::cursor::Cursor;
use crate::ring::RingBuffer;
use crate::source::DataSource;

verus! {

/// Marks a source as infinite: it always produces data, so a "read to end"
/// operation can never complete on it.
pub trait InfiniteSource: DataSource {

}

/// Known lower and upper bounds on the byte count a source will still
/// produce.
pub trait SourceSize: DataSource {
    /// A count of bytes the source produces at least.
    fn lower_bound(&self) -> (r: u64)
        requires
            self.source_inv(),
        ensures
            r as int <= self.stream().len() as int,
    {
        0
    }

    /// A count of bytes the source produces at most, if one is known.
    fn upper_bound(&self) -> (r: Option<u64>)
        requires
            self.source_inv(),
        ensures
            r matches Some(u) ==> self.stream().len() as int <= u as int,
    {
        None
    }
}

impl SourceSize for Cursor {
    fn lower_bound(&self) -> (r: u64) {
        self.available() as u64
    }

    fn upper_bound(&self) -> (r: Option<u64>) {
        Some(self.available() as u64)
    }
}

impl SourceSize for RingBuffer {
    fn lower_bound(&self) -> (r: u64) {
        self.available() as u64
    }

    fn upper_bound(&self) -> (r: Option<u64>) {
        Some(self.available() as u64)
    }
}

} // verus!
