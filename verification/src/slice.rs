//! Byte-slice helpers shared by the concrete sources and sinks, and the
//! fixed-capacity sink that models writing into a mutable byte slice.

use vstd::prelude::*;
use vstd::slice::slice_subrange;
use vstd::slice::slice_to_vec;

use crate::error::Error;
use crate::sink::DataSink;

verus! {

/// Appends every byte of `src` to `dest`.
pub fn push_bytes(dest: &mut Vec<u8>, src: &[u8])
    ensures
        final(dest)@ == old(dest)@ + src@,
{
    let mut tmp = slice_to_vec(src);
    dest.append(&mut tmp);
}

/// Copies the bytes of `src` between `i` and `j` into a fresh vector.
pub fn subrange_vec(src: &[u8], i: usize, j: usize) -> (r: Vec<u8>)
    requires
        i <= j <= src@.len(),
    ensures
        r@ == src@.subrange(i as int, j as int),
{
    slice_to_vec(slice_subrange(src, i, j))
}

/// A sink with a hard storage limit, as writing through a mutable byte slice
/// has: bytes are committed in order until the limit, and the remainder of an
/// overflowing write is rejected.
pub struct SliceSink {
    data: Vec<u8>,
    limit: usize,
}

impl SliceSink {
    /// The bytes committed so far.
    pub closed spec fn spec_written(&self) -> Seq<u8> {
        self.data@
    }

    /// The hard limit the sink was created with.
    pub closed spec fn spec_limit(&self) -> nat {
        self.limit as nat
    }

    /// The room left before the limit.
    pub closed spec fn spec_spare(&self) -> nat {
        if self.data@.len() <= self.limit {
            (self.limit - self.data@.len()) as nat
        } else {
            0
        }
    }

    /// Creates a sink that accepts at most `limit` bytes in total.
    pub fn new(limit: usize) -> (r: SliceSink)
        ensures
            r.spec_written() == Seq::<u8>::empty(),
            r.spec_limit() == limit,
    {
        SliceSink { data: Vec::new(), limit }
    }

    /// Returns the bytes committed so far.
    pub fn as_slice(&self) -> (r: &[u8])
        ensures
            r@ == self.spec_written(),
    {
        self.data.as_slice()
    }

    /// Takes the committed bytes out of the sink.
    pub fn into_vec(self) -> (r: Vec<u8>)
        ensures
            r@ == self.spec_written(),
    {
        self.data
    }
}

impl DataSink for SliceSink {
    closed spec fn written(&self) -> Seq<u8> {
        self.data@
    }

    open spec fn sink_inv(&self) -> bool {
        true
    }

    closed spec fn room(&self) -> Option<nat> {
        Option::Some(self.spec_spare())
    }

    fn write_bytes(&mut self, buf: &[u8]) -> (r: Result<(), Error>) {
        let spare = if self.data.len() <= self.limit {
            self.limit - self.data.len()
        } else {
            0
        };
        if buf.len() <= spare {
            let mut tmp = slice_to_vec(buf);
            self.data.append(&mut tmp);
            Ok(())
        } else {
            let mut tmp = slice_to_vec(slice_subrange(buf, 0, spare));
            self.data.append(&mut tmp);
            proof {
                assert(old(self).data@ + buf@.take(spare as int) =~= self.data@);
            }
            Err(Error::overflow(buf.len() - spare))
        }
    }
}

} // verus!
