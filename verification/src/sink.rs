//! The writable stream contract: a minimal byte-write primitive plus derived
//! typed writes, all funnelled through `write_bytes` and inheriting its
//! overflow contract unchanged.

use vstd::bytes::spec_u128_to_le_bytes;
use vstd::bytes::spec_u16_to_le_bytes;
use vstd::bytes::spec_u32_to_le_bytes;
use vstd::bytes::spec_u64_to_le_bytes;
use vstd::bytes::u128_to_le_bytes;
use vstd::bytes::u16_to_le_bytes;
use vstd::bytes::u32_to_le_bytes;
use vstd::bytes::u64_to_le_bytes;
use vstd::prelude::*;
use vstd::string::StringSliceAdditionalSpecFns;
use vstd::utf8::encode_scalar;
use vstd::utf8::encode_utf8;

use crate::codec::spec_u128_to_be_bytes;
use crate::codec::spec_u16_to_be_bytes;
use crate::codec::spec_u32_to_be_bytes;
use crate::codec::spec_u64_to_be_bytes;
use crate::codec::u128_to_be_vec;
use crate::codec::u16_to_be_vec;
use crate::codec::u32_to_be_vec;
use crate::codec::u64_to_be_vec;
use crate::error::Error;
use crate::utf8::encode_char_vec;

verus! {

/// True when a sink with `room` bytes of remaining hard capacity (`None`
/// meaning unbounded) can accept `n` more bytes without overflowing.
pub open spec fn sink_fits(room: Option<nat>, n: int) -> bool {
    match room {
        Option::None => true,
        Option::Some(c) => n <= c,
    }
}

/// The remaining hard capacity of a sink after `n` more bytes were accepted.
pub open spec fn sink_room_after(room: Option<nat>, n: int) -> Option<nat> {
    match room {
        Option::None => Option::None,
        Option::Some(c) => Option::Some((c - n) as nat),
    }
}

/// The contract every write shares, stated over the byte sequence `b` that the
/// operation encodes. On success all of `b` was accepted. On failure, exactly
/// one kind applies: `Overflow { remaining }`, meaning the sink accepted
/// `b.len() - remaining` bytes, filled to its hard limit, and the trailing
/// `remaining` bytes were rejected; the prefix up to the limit is durably
/// committed even though the call reports failure.
pub open spec fn write_outcome(
    pre_written: Seq<u8>,
    pre_room: Option<nat>,
    post_written: Seq<u8>,
    post_room: Option<nat>,
    b: Seq<u8>,
    r: Result<(), Error>,
) -> bool {
    match r {
        Ok(()) => {
            &&& sink_fits(pre_room, b.len() as int)
            &&& post_written == pre_written + b
            &&& post_room == sink_room_after(pre_room, b.len() as int)
        },
        Err(e) => {
            &&& !sink_fits(pre_room, b.len() as int)
            &&& pre_room matches Some(c) && e == (Error::Overflow {
                remaining: (b.len() - c) as usize,
            }) && post_written == pre_written + b.take(c as int) && post_room == Some(0 as nat)
        },
    }
}

/// A sink stream of data.
pub trait DataSink: Sized {
    /// The bytes this sink has accepted, in order.
    spec fn written(&self) -> Seq<u8>;

    /// The implementation's own well-formedness condition, established by
    /// its constructors and preserved by every operation.
    spec fn sink_inv(&self) -> bool;

    /// The remaining hard storage limit in bytes; `None` when unbounded.
    spec fn room(&self) -> Option<nat>;

    /// Writes all bytes from `buf`.
    fn write_bytes(&mut self, buf: &[u8]) -> (r: Result<(), Error>)
        requires
            old(self).sink_inv(),
        ensures
            final(self).sink_inv(),
            write_outcome(
                old(self).written(),
                old(self).room(),
                final(self).written(),
                final(self).room(),
                buf@, r),
    ;

    /// Writes a UTF-8 string.
    fn write_utf8(&mut self, value: &str) -> (r: Result<(), Error>)
        requires
            old(self).sink_inv(),
        ensures
            final(self).sink_inv(),
            write_outcome(
                old(self).written(),
                old(self).room(),
                final(self).written(),
                final(self).room(),
                value.spec_bytes(), r),
    {
        self.write_bytes(value.as_bytes())
    }

    /// Writes a single UTF-8 codepoint, encoded as 1 to 4 bytes.
    fn write_utf8_codepoint(&mut self, value: char) -> (r: Result<(), Error>)
        requires
            old(self).sink_inv(),
        ensures
            final(self).sink_inv(),
            write_outcome(
                old(self).written(),
                old(self).room(),
                final(self).written(),
                final(self).room(),
                encode_scalar(value as u32), r),
    {
        let tmp = encode_char_vec(value);
        self.write_bytes(tmp.as_slice())
    }

    /// Writes an ASCII byte slice.
    fn write_ascii(&mut self, value: &[u8]) -> (r: Result<(), Error>)
        requires
            old(self).sink_inv(),
            forall|i: int| 0 <= i < value@.len() ==> value@[i] < 0x80,
        ensures
            final(self).sink_inv(),
            write_outcome(
                old(self).written(),
                old(self).room(),
                final(self).written(),
                final(self).room(),
                value@, r),
    {
        self.write_bytes(value)
    }

    /// Writes a [`u8`].
    fn write_u8(&mut self, value: u8) -> (r: Result<(), Error>)
        requires
            old(self).sink_inv(),
        ensures
            final(self).sink_inv(),
            write_outcome(
                old(self).written(),
                old(self).room(),
                final(self).written(),
                final(self).room(),
                seq![value], r),
    {
        let tmp: Vec<u8> = vec![value];
        proof {
            assert(tmp@ =~= seq![value]);
        }
        self.write_bytes(tmp.as_slice())
    }

    /// Writes an [`i8`].
    fn write_i8(&mut self, value: i8) -> (r: Result<(), Error>)
        requires
            old(self).sink_inv(),
        ensures
            final(self).sink_inv(),
            write_outcome(
                old(self).written(),
                old(self).room(),
                final(self).written(),
                final(self).room(),
                seq![value as u8], r),
    {
        self.write_u8(value as u8)
    }

    /// Writes a big-endian [`u16`].
    fn write_u16(&mut self, value: u16) -> (r: Result<(), Error>)
        requires
            old(self).sink_inv(),
        ensures
            final(self).sink_inv(),
            write_outcome(
                old(self).written(),
                old(self).room(),
                final(self).written(),
                final(self).room(),
                spec_u16_to_be_bytes(value), r),
    {
        let tmp = u16_to_be_vec(value);
        self.write_bytes(tmp.as_slice())
    }

    /// Writes a big-endian [`i16`].
    fn write_i16(&mut self, value: i16) -> (r: Result<(), Error>)
        requires
            old(self).sink_inv(),
        ensures
            final(self).sink_inv(),
            write_outcome(
                old(self).written(),
                old(self).room(),
                final(self).written(),
                final(self).room(),
                spec_u16_to_be_bytes(value as u16), r),
    {
        self.write_u16(value as u16)
    }

    /// Writes a little-endian [`u16`].
    fn write_u16_le(&mut self, value: u16) -> (r: Result<(), Error>)
        requires
            old(self).sink_inv(),
        ensures
            final(self).sink_inv(),
            write_outcome(
                old(self).written(),
                old(self).room(),
                final(self).written(),
                final(self).room(),
                spec_u16_to_le_bytes(value), r),
    {
        let tmp = u16_to_le_bytes(value);
        self.write_bytes(tmp.as_slice())
    }

    /// Writes a little-endian [`i16`].
    fn write_i16_le(&mut self, value: i16) -> (r: Result<(), Error>)
        requires
            old(self).sink_inv(),
        ensures
            final(self).sink_inv(),
            write_outcome(
                old(self).written(),
                old(self).room(),
                final(self).written(),
                final(self).room(),
                spec_u16_to_le_bytes(value as u16), r),
    {
        self.write_u16_le(value as u16)
    }

    /// Writes a big-endian [`u32`].
    fn write_u32(&mut self, value: u32) -> (r: Result<(), Error>)
        requires
            old(self).sink_inv(),
        ensures
            final(self).sink_inv(),
            write_outcome(
                old(self).written(),
                old(self).room(),
                final(self).written(),
                final(self).room(),
                spec_u32_to_be_bytes(value), r),
    {
        let tmp = u32_to_be_vec(value);
        self.write_bytes(tmp.as_slice())
    }

    /// Writes a big-endian [`i32`].
    fn write_i32(&mut self, value: i32) -> (r: Result<(), Error>)
        requires
            old(self).sink_inv(),
        ensures
            final(self).sink_inv(),
            write_outcome(
                old(self).written(),
                old(self).room(),
                final(self).written(),
                final(self).room(),
                spec_u32_to_be_bytes(value as u32), r),
    {
        self.write_u32(value as u32)
    }

    /// Writes a little-endian [`u32`].
    fn write_u32_le(&mut self, value: u32) -> (r: Result<(), Error>)
        requires
            old(self).sink_inv(),
        ensures
            final(self).sink_inv(),
            write_outcome(
                old(self).written(),
                old(self).room(),
                final(self).written(),
                final(self).room(),
                spec_u32_to_le_bytes(value), r),
    {
        let tmp = u32_to_le_bytes(value);
        self.write_bytes(tmp.as_slice())
    }

    /// Writes a little-endian [`i32`].
    fn write_i32_le(&mut self, value: i32) -> (r: Result<(), Error>)
        requires
            old(self).sink_inv(),
        ensures
            final(self).sink_inv(),
            write_outcome(
                old(self).written(),
                old(self).room(),
                final(self).written(),
                final(self).room(),
                spec_u32_to_le_bytes(value as u32), r),
    {
        self.write_u32_le(value as u32)
    }

    /// Writes a big-endian [`u64`].
    fn write_u64(&mut self, value: u64) -> (r: Result<(), Error>)
        requires
            old(self).sink_inv(),
        ensures
            final(self).sink_inv(),
            write_outcome(
                old(self).written(),
                old(self).room(),
                final(self).written(),
                final(self).room(),
                spec_u64_to_be_bytes(value), r),
    {
        let tmp = u64_to_be_vec(value);
        self.write_bytes(tmp.as_slice())
    }

    /// Writes a big-endian [`i64`].
    fn write_i64(&mut self, value: i64) -> (r: Result<(), Error>)
        requires
            old(self).sink_inv(),
        ensures
            final(self).sink_inv(),
            write_outcome(
                old(self).written(),
                old(self).room(),
                final(self).written(),
                final(self).room(),
                spec_u64_to_be_bytes(value as u64), r),
    {
        self.write_u64(value as u64)
    }

    /// Writes a little-endian [`u64`].
    fn write_u64_le(&mut self, value: u64) -> (r: Result<(), Error>)
        requires
            old(self).sink_inv(),
        ensures
            final(self).sink_inv(),
            write_outcome(
                old(self).written(),
                old(self).room(),
                final(self).written(),
                final(self).room(),
                spec_u64_to_le_bytes(value), r),
    {
        let tmp = u64_to_le_bytes(value);
        self.write_bytes(tmp.as_slice())
    }

    /// Writes a little-endian [`i64`].
    fn write_i64_le(&mut self, value: i64) -> (r: Result<(), Error>)
        requires
            old(self).sink_inv(),
        ensures
            final(self).sink_inv(),
            write_outcome(
                old(self).written(),
                old(self).room(),
                final(self).written(),
                final(self).room(),
                spec_u64_to_le_bytes(value as u64), r),
    {
        self.write_u64_le(value as u64)
    }

    /// Writes a big-endian [`u128`].
    fn write_u128(&mut self, value: u128) -> (r: Result<(), Error>)
        requires
            old(self).sink_inv(),
        ensures
            final(self).sink_inv(),
            write_outcome(
                old(self).written(),
                old(self).room(),
                final(self).written(),
                final(self).room(),
                spec_u128_to_be_bytes(value), r),
    {
        let tmp = u128_to_be_vec(value);
        self.write_bytes(tmp.as_slice())
    }

    /// Writes a big-endian [`i128`].
    fn write_i128(&mut self, value: i128) -> (r: Result<(), Error>)
        requires
            old(self).sink_inv(),
        ensures
            final(self).sink_inv(),
            write_outcome(
                old(self).written(),
                old(self).room(),
                final(self).written(),
                final(self).room(),
                spec_u128_to_be_bytes(value as u128), r),
    {
        self.write_u128(value as u128)
    }

    /// Writes a little-endian [`u128`].
    fn write_u128_le(&mut self, value: u128) -> (r: Result<(), Error>)
        requires
            old(self).sink_inv(),
        ensures
            final(self).sink_inv(),
            write_outcome(
                old(self).written(),
                old(self).room(),
                final(self).written(),
                final(self).room(),
                spec_u128_to_le_bytes(value), r),
    {
        let tmp = u128_to_le_bytes(value);
        self.write_bytes(tmp.as_slice())
    }

    /// Writes a little-endian [`i128`].
    fn write_i128_le(&mut self, value: i128) -> (r: Result<(), Error>)
        requires
            old(self).sink_inv(),
        ensures
            final(self).sink_inv(),
            write_outcome(
                old(self).written(),
                old(self).room(),
                final(self).written(),
                final(self).room(),
                spec_u128_to_le_bytes(value as u128), r),
    {
        self.write_u128_le(value as u128)
    }

    /// Writes a big-endian [`usize`]. To make streams consistent across
    /// platforms, [`usize`] is fixed to the size of [`u64`] regardless of the
    /// target platform.
    fn write_usize(&mut self, value: usize) -> (r: Result<(), Error>)
        requires
            old(self).sink_inv(),
        ensures
            final(self).sink_inv(),
            write_outcome(
                old(self).written(),
                old(self).room(),
                final(self).written(),
                final(self).room(),
                spec_u64_to_be_bytes(value as u64), r),
    {
        self.write_u64(value as u64)
    }

    /// Writes a big-endian [`isize`]. To make streams consistent across
    /// platforms, [`isize`] is fixed to the size of [`i64`] regardless of the
    /// target platform.
    fn write_isize(&mut self, value: isize) -> (r: Result<(), Error>)
        requires
            old(self).sink_inv(),
        ensures
            final(self).sink_inv(),
            write_outcome(
                old(self).written(),
                old(self).room(),
                final(self).written(),
                final(self).room(),
                spec_u64_to_be_bytes(value as u64), r),
    {
        self.write_u64(value as u64)
    }

    /// Writes a little-endian [`usize`]. To make streams consistent across
    /// platforms, [`usize`] is fixed to the size of [`u64`] regardless of the
    /// target platform.
    fn write_usize_le(&mut self, value: usize) -> (r: Result<(), Error>)
        requires
            old(self).sink_inv(),
        ensures
            final(self).sink_inv(),
            write_outcome(
                old(self).written(),
                old(self).room(),
                final(self).written(),
                final(self).room(),
                spec_u64_to_le_bytes(value as u64), r),
    {
        self.write_u64_le(value as u64)
    }

    /// Writes a little-endian [`isize`]. To make streams consistent across
    /// platforms, [`isize`] is fixed to the size of [`i64`] regardless of the
    /// target platform.
    fn write_isize_le(&mut self, value: isize) -> (r: Result<(), Error>)
        requires
            old(self).sink_inv(),
        ensures
            final(self).sink_inv(),
            write_outcome(
                old(self).written(),
                old(self).room(),
                final(self).written(),
                final(self).room(),
                spec_u64_to_le_bytes(value as u64), r),
    {
        self.write_u64_le(value as u64)
    }
}

impl DataSink for Vec<u8> {
    open spec fn written(&self) -> Seq<u8> {
        self@
    }

    open spec fn sink_inv(&self) -> bool {
        true
    }

    open spec fn room(&self) -> Option<nat> {
        Option::None
    }

    fn write_bytes(&mut self, buf: &[u8]) -> (r: Result<(), Error>) {
        let mut tmp = vstd::slice::slice_to_vec(buf);
        self.append(&mut tmp);
        Ok(())
    }
}

/// A sink stream of vector data.
pub trait VecSink: DataSink {
    /// Writes all bytes from an owned [`Vec`].
    fn write_owned_bytes(&mut self, buf: Vec<u8>) -> (r: Result<(), Error>)
        requires
            old(self).sink_inv(),
        ensures
            final(self).sink_inv(),
            write_outcome(
                old(self).written(),
                old(self).room(),
                final(self).written(),
                final(self).room(),
                buf@,
                r,
            ),
    {
        self.write_bytes(buf.as_slice())
    }

    /// Writes all UTF-8 bytes from an owned [`String`].
    fn write_owned_utf8(&mut self, buf: String) -> (r: Result<(), Error>)
        requires
            old(self).sink_inv(),
        ensures
            final(self).sink_inv(),
            write_outcome(
                old(self).written(),
                old(self).room(),
                final(self).written(),
                final(self).room(),
                encode_utf8(buf@),
                r,
            ),
    {
        self.write_utf8(buf.as_str())
    }
}

impl<T: DataSink> VecSink for T {

}

/// Overflow conservation: a write of `n` bytes into a sink with `c < n`
/// bytes of remaining capacity fails with `Overflow { remaining: n - c }`,
/// and exactly the first `c` bytes are present in the sink afterward.
pub proof fn lemma_overflow_conservation(
    pre_written: Seq<u8>,
    pre_room: Option<nat>,
    post_written: Seq<u8>,
    post_room: Option<nat>,
    b: Seq<u8>,
    r: Result<(), Error>,
)
    requires
        write_outcome(pre_written, pre_room, post_written, post_room, b, r),
        pre_room matches Some(c) && c < b.len(),
    ensures
        pre_room matches Some(c) ==> {
            &&& r == Err::<(), Error>(Error::Overflow { remaining: (b.len() - c) as usize })
            &&& post_written == pre_written + b.take(c as int)
            &&& post_written.len() == pre_written.len() + c
            &&& post_room == Some(0 as nat)
        },
{
}

} // verus!
