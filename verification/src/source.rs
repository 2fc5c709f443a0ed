//! The readable stream contract: primitive byte reads plus derived exact and
//! typed reads.
//!
//! Reads move bytes into a caller-supplied buffer, appending to it, so that
//! on a partial failure the bytes that were obtainable are still delivered:
//! callers must not assume the source is untouched on error.

pub mod markers;

use vstd::math::min;
use vstd::bytes::spec_u128_from_le_bytes;
use vstd::bytes::spec_u16_from_le_bytes;
use vstd::bytes::spec_u32_from_le_bytes;
use vstd::bytes::spec_u64_from_le_bytes;
use vstd::prelude::*;
use vstd::utf8::decode_utf8;
use vstd::utf8::valid_utf8;

use crate::codec::spec_u128_from_be_bytes;
use crate::codec::spec_u16_from_be_bytes;
use crate::codec::spec_u32_from_be_bytes;
use crate::codec::spec_u64_from_be_bytes;
use crate::codec::u128_from_be_vec;
use crate::codec::u128_from_le_vec;
use crate::codec::u16_from_be_vec;
use crate::codec::u16_from_le_vec;
use crate::codec::u32_from_be_vec;
use crate::codec::u32_from_le_vec;
use crate::codec::u64_from_be_vec;
use crate::codec::u64_from_le_vec;
use crate::error::AsciiError;
use crate::error::Error;
use crate::error::Utf8ErrorKind;
use crate::utf8::ascii_prefix_len;
use crate::utf8::scan_utf8;
use crate::utf8::scan_valid_up_to;
use crate::utf8::spec_utf8_char_width;
use crate::cursor::Cursor;
use crate::ring::RingBuffer;
use crate::slice::push_bytes;
use crate::error::Utf8Error;
use crate::utf8::decode_char;
use crate::utf8::lemma_scan_first_facts;
use crate::utf8::lemma_scan_prefix_valid_utf8;
use crate::utf8::lemma_scan_valid_iff;
use crate::utf8::lemma_scan_split;
use crate::utf8::scan_first_char;
use crate::utf8::utf8_char_width;
use crate::utf8::validate_utf8;
use crate::utf8::CharScan;
use crate::utf8::Utf8Scan;
use crate::utf8::Utf8Validation;
use vstd::slice::slice_subrange;

verus! {

/// The contract of an exact read of `count` bytes: either exactly that many
/// bytes move from the front of the stream into the destination, or the
/// stream was shorter, an end-of-stream error names the full requirement,
/// and the bytes that were obtainable have been consumed and delivered.
pub open spec fn read_exact_outcome(
    pre_stream: Seq<u8>,
    post_stream: Seq<u8>,
    pre_dest: Seq<u8>,
    post_dest: Seq<u8>,
    count: int,
    r: Result<(), Error>,
) -> bool {
    match r {
        Ok(()) => {
            &&& pre_stream.len() >= count
            &&& post_dest == pre_dest + pre_stream.take(count)
            &&& post_stream == pre_stream.skip(count)
        },
        Err(e) => {
            &&& e == (Error::End { required_count: count as usize })
            &&& pre_stream.len() < count
            &&& post_dest == pre_dest + pre_stream
            &&& post_stream == Seq::<u8>::empty()
        },
    }
}

/// The contract of a text read over a window of at most `count` bytes:
/// exactly the longest valid UTF-8 prefix of the window is consumed and
/// appended, decoded, to the destination. On success the whole window was
/// valid. On failure the error localizes the valid prefix; its kind reports
/// ill-formed bytes, or an incomplete trailing character — for a window whose
/// trailing character encoding is cut short, a source split into two regions
/// may report the cut before looking at bytes it would need to splice.
pub open spec fn read_utf8_outcome(
    pre_stream: Seq<u8>,
    post_stream: Seq<u8>,
    pre_dest: Seq<char>,
    post_dest: Seq<char>,
    count: int,
    r: Result<(), Error>,
) -> bool {
    let window = pre_stream.take(min(count, pre_stream.len() as int));
    let v = scan_valid_up_to(window);
    &&& post_stream == pre_stream.skip(v)
    &&& post_dest == pre_dest + decode_utf8(window.take(v))
    &&& match r {
        Ok(()) => scan_utf8(window) is Valid,
        Err(e) => {
            &&& !(scan_utf8(window) is Valid)
            &&& e matches Error::Utf8(u)
            &&& e matches Error::Utf8(u) ==> u.valid_up_to == v && match scan_utf8(window) {
                Utf8Scan::Valid => false,
                Utf8Scan::Incomplete { .. } => u.kind == Utf8ErrorKind::IncompleteChar,
                Utf8Scan::Invalid { valid_up_to, error_len } => u.kind
                    == (Utf8ErrorKind::InvalidBytes(error_len as u8)) || (window.len() - valid_up_to
                    < spec_utf8_char_width(window[valid_up_to]) && u.kind
                    == Utf8ErrorKind::IncompleteChar),
            }
        },
    }
}

/// The contract of an ASCII read over a window of at most `count` bytes:
/// exactly the longest all-ASCII prefix of the window is consumed and
/// appended to the destination. On success the whole window was ASCII; on
/// failure the error carries the first non-ASCII byte, its index, and the
/// consumed count, which equals the valid length.
pub open spec fn read_ascii_outcome(
    pre_stream: Seq<u8>,
    post_stream: Seq<u8>,
    pre_dest: Seq<u8>,
    post_dest: Seq<u8>,
    count: int,
    r: Result<usize, Error>,
) -> bool {
    let window = pre_stream.take(min(count, pre_stream.len() as int));
    let a = ascii_prefix_len(window);
    &&& post_stream == pre_stream.skip(a)
    &&& post_dest == pre_dest + window.take(a)
    &&& match r {
        Ok(n) => a == window.len() && n == a,
        Err(e) => a < window.len() && e == (Error::Ascii(
            AsciiError {
                invalid_byte: window[a],
                valid_up_to: a as usize,
                consumed_count: a as usize,
            },
        )),
    }
}

/// A source stream of data.
///
/// Every implementation carries a model of the bytes it still holds, its
/// `stream`, and each operation states exactly what it consumes and delivers
/// in terms of it. The sources of this crate are in-memory and know their
/// stream exactly; a transport with an unknowable remainder (a file, a
/// socket) belongs behind an adapter in an outer crate, staging bytes into
/// one of these sources and calling its verified operations.
pub trait DataSource: Sized {
    /// The bytes still obtainable from this source, in order.
    spec fn stream(&self) -> Seq<u8>;

    /// The implementation's own well-formedness condition, established by
    /// its constructors and preserved by every operation.
    spec fn source_inv(&self) -> bool;

    /// Returns the number of bytes available for reading.
    fn available(&self) -> (r: usize)
        requires
            self.source_inv(),
        ensures
            r == self.stream().len(),
    ;

    /// Returns whether at least `count` bytes are available, after trying to
    /// make them available. A `false` result does not mean the stream has
    /// ended; more bytes may arrive later. To turn a shortfall into an
    /// end-of-stream error, use [`require`](Self::require) instead.
    fn request(&mut self, count: usize) -> (r: Result<bool, Error>)
        requires
            old(self).source_inv(),
        ensures
            final(self).source_inv(),
            final(self).stream() == old(self).stream(),
            r matches Ok(b) && b == (old(self).stream().len() >= count),
    ;

    /// Requires at least `count` bytes to be available, returning an
    /// end-of-stream error naming the requirement when they are not.
    fn require(&mut self, count: usize) -> (r: Result<(), Error>)
        requires
            old(self).source_inv(),
        ensures
            final(self).source_inv(),
            final(self).stream() == old(self).stream(),
            match r {
                Ok(()) => old(self).stream().len() >= count,
                Err(e) => e == (Error::End { required_count: count }) && old(self).stream().len()
                    < count,
            },
    {
        if self.request(count)? {
            Ok(())
        } else {
            Err(Error::end(count))
        }
    }

    /// Consumes up to `count` bytes, returning how many were actually
    /// available and consumed; consuming fewer than requested is not an
    /// error.
    fn skip(&mut self, count: usize) -> (r: Result<usize, Error>)
        requires
            old(self).source_inv(),
        ensures
            final(self).source_inv(),
            r matches Ok(n) && n == min(count as int, old(self).stream().len() as int),
            final(self).stream() == old(self).stream().skip(
                min(count as int, old(self).stream().len() as int),
            ),
    ;

    /// Reads up to `count` bytes, greedily, appending them to `dest` and
    /// returning how many were read.
    fn read_bytes(&mut self, dest: &mut Vec<u8>, count: usize) -> (r: Result<usize, Error>)
        requires
            old(self).source_inv(),
        ensures
            final(self).source_inv(),
            r matches Ok(n) && n == min(count as int, old(self).stream().len() as int),
            final(dest)@ == old(dest)@ + old(self).stream().take(
                min(count as int, old(self).stream().len() as int),
            ),
            final(self).stream() == old(self).stream().skip(
                min(count as int, old(self).stream().len() as int),
            ),
    ;

    /// Reads exactly `count` bytes into `dest`, or fails with an
    /// end-of-stream error; the bytes that were obtainable are consumed and
    /// appended to `dest` even on failure.
    fn read_exact_bytes(&mut self, dest: &mut Vec<u8>, count: usize) -> (r: Result<(), Error>)
        requires
            old(self).source_inv(),
        ensures
            final(self).source_inv(),
            read_exact_outcome(
                old(self).stream(),
                final(self).stream(),
                old(dest)@,
                final(dest)@,
                count as int,
                r,
            ),
    {
        match self.require(count) {
            Ok(()) => {
                let n = self.read_bytes(dest, count);
                proof {
                    assert(old(self).stream().skip(old(self).stream().len() as int)
                        =~= Seq::<u8>::empty());
                }
                match n {
                    Ok(_) => Ok(()),
                    Err(e) => Err(e),
                }
            },
            Err(_) => {
                let avail = self.available();
                let n = self.read_bytes(dest, avail);
                proof {
                    assert(old(self).stream().take(old(self).stream().len() as int)
                        =~= old(self).stream());
                    assert(old(self).stream().skip(old(self).stream().len() as int)
                        =~= Seq::<u8>::empty());
                }
                match n {
                    Ok(_) => Err(Error::end(count)),
                    Err(e) => Err(e),
                }
            },
        }
    }

    /// Reads bytes in whole multiples of `alignment`, greedily, appending
    /// them to `dest` and returning how many bytes were read. With a zero
    /// alignment nothing is read.
    fn read_aligned_bytes(&mut self, dest: &mut Vec<u8>, count: usize, alignment: usize) -> (r:
        Result<usize, Error>)
        requires
            old(self).source_inv(),
        ensures
            final(self).source_inv(),
            ({
                let n = if alignment == 0 {
                    0int
                } else {
                    min(
                        count as int / alignment as int * alignment as int,
                        old(self).stream().len() as int / alignment as int * alignment as int,
                    )
                };
                &&& r matches Ok(k) && k == n
                &&& final(dest)@ == old(dest)@ + old(self).stream().take(n)
                &&& final(self).stream() == old(self).stream().skip(n)
            }),
    {
        if alignment == 0 {
            proof {
                assert(old(self).stream().take(0) =~= Seq::<u8>::empty());
                assert(old(dest)@ + Seq::<u8>::empty() =~= old(dest)@);
                assert(old(self).stream().skip(0) =~= old(self).stream());
            }
            return Ok(0);
        }
        let want = max_multiple_of(count, alignment);
        let avail = self.available();
        let have = max_multiple_of(avail, alignment);
        let n = if want < have {
            want
        } else {
            have
        };
        match self.read_exact_bytes(dest, n) {
            Ok(()) => Ok(n),
            Err(e) => Err(e),
        }
    }


    /// Reads a single UTF-8 codepoint: one byte to learn the character
    /// width, then the rest of the encoding, validated as one character.
    fn read_utf8_codepoint(&mut self) -> (r: Result<char, Error>)
        requires
            old(self).source_inv(),
        ensures
            final(self).source_inv(),
            ({
                let s = old(self).stream();
                let w = spec_utf8_char_width(s[0]);
                match r {
                    Ok(c) => {
                        &&& s.len() >= 1
                        &&& 1 <= w <= s.len()
                        &&& scan_utf8(s.take(w)) is Valid
                        &&& seq![c] == decode_utf8(s.take(w))
                        &&& final(self).stream() == s.skip(w)
                    },
                    Err(Error::End { required_count }) => {
                        &&& (s.len() == 0 && required_count == 1) || (s.len() >= 1 && w >= 2
                            && s.len() < w && required_count == w - 1)
                        &&& final(self).stream() == Seq::<u8>::empty()
                    },
                    Err(Error::Utf8(u)) => {
                        &&& s.len() >= 1
                        &&& u.valid_up_to == 0
                        &&& if w == 0 {
                            u.kind == (Utf8ErrorKind::InvalidBytes(1u8)) && final(self).stream()
                                == s.skip(1)
                        } else {
                            &&& w <= s.len()
                            &&& scan_utf8(s.take(w)) matches Utf8Scan::Invalid { error_len, .. }
                                && u.kind == (Utf8ErrorKind::InvalidBytes(error_len as u8))
                            &&& final(self).stream() == s.skip(w)
                        }
                    },
                    _ => false,
                }
            }),
    {
        let mut head: Vec<u8> = Vec::new();
        match self.read_exact_bytes(&mut head, 1) {
            Ok(()) => (),
            Err(e) => {
                return Err(e);
            },
        }
        let b0 = head[0];
        let w = utf8_char_width(b0);
        proof {
            assert(Seq::<u8>::empty() + old(self).stream().take(1) =~= old(self).stream().take(1));
            assert(head@[0] == old(self).stream()[0]);
        }
        if w == 0 {
            return Err(
                Error::Utf8(Utf8Error { valid_up_to: 0, kind: Utf8ErrorKind::InvalidBytes(1) }),
            );
        }
        match self.read_exact_bytes(&mut head, w - 1) {
            Ok(()) => (),
            Err(e) => {
                proof {
                    assert(old(self).stream().len() < w);
                }
                return Err(e);
            },
        }
        proof {
            assert(head@ =~= old(self).stream().take(w as int));
            assert(old(self).stream().skip(1).skip((w - 1) as int) =~= old(self).stream().skip(
                w as int,
            ));
        }
        let val = validate_utf8(head.as_slice());
        proof {
            assert(head@.len() == w);
            assert(head@[0] == old(self).stream()[0]);
            assert(head@[0] == b0);
            lemma_scan_first_facts(head@);
            if scan_first_char(head@) is Incomplete {
                assert(false);
            }
            lemma_scan_split(head@);
        }
        match val {
            Utf8Validation::Valid => {
                proof {
                    reveal_with_fuel(scan_utf8, 2);
                    assert(scan_first_char(head@) matches CharScan::Complete { width }
                        && width as int == head@.len());
                }
                let c = decode_char(&head);
                Ok(c)
            },
            Utf8Validation::Partial { .. } => {
                proof {
                    match scan_first_char(head@) {
                        CharScan::Complete { width } => {
                            assert(head@.skip(width) =~= Seq::<u8>::empty());
                            reveal_with_fuel(scan_utf8, 2);
                            assert(scan_utf8(head@) is Valid);
                        },
                        CharScan::Incomplete => {
                        },
                        CharScan::Invalid { .. } => {
                        },
                    }
                    assert(false);
                }
                vstd::pervasive::unreached()
            },
            Utf8Validation::Rejected { valid_up_to, error_len } => {
                proof {
                    assert(valid_up_to == 0);
                }
                Err(
                    Error::Utf8(
                        Utf8Error {
                            valid_up_to: 0,
                            kind: Utf8ErrorKind::InvalidBytes(error_len),
                        },
                    ),
                )
            },
        }
    }

    /// Reads up to `count` bytes as UTF-8 text, appending the decoded valid
    /// prefix to `dest`; exactly the valid prefix is consumed.
    fn read_utf8(&mut self, dest: &mut String, count: usize) -> (r: Result<(), Error>)
        requires
            old(self).source_inv(),
        ensures
            final(self).source_inv(),
            read_utf8_outcome(
                old(self).stream(),
                final(self).stream(),
                old(dest)@,
                final(dest)@,
                count as int,
                r,
            ),
    ;

    /// Reads up to `count` bytes as ASCII, appending the valid prefix to
    /// `dest` and returning its length; exactly the valid prefix is consumed.
    fn read_ascii(&mut self, dest: &mut Vec<u8>, count: usize) -> (r: Result<usize, Error>)
        requires
            old(self).source_inv(),
        ensures
            final(self).source_inv(),
            read_ascii_outcome(
                old(self).stream(),
                final(self).stream(),
                old(dest)@,
                final(dest)@,
                count as int,
                r,
            ),
    ;

    /// Reads a [`u8`].
    fn read_u8(&mut self) -> (r: Result<u8, Error>)
        requires
            old(self).source_inv(),
        ensures
            final(self).source_inv(),
            match r {
                Ok(v) => old(self).stream().len() >= 1 && v == old(self).stream()[0] && final(self).stream() == old(self).stream().skip(1),
                Err(e) => e == (Error::End { required_count: 1 }) && old(self).stream().len() < 1
                    && final(self).stream() == Seq::<u8>::empty(),
            },
    {
        let mut tmp: Vec<u8> = Vec::new();
        self.read_exact_bytes(&mut tmp, 1)?;
        proof {
            assert(Seq::<u8>::empty() + old(self).stream().take(1) =~= old(self).stream().take(1));
            assert(old(self).stream().take(1)[0] == old(self).stream()[0]);
        }
        Ok(tmp[0])
    }

    /// Reads an [`i8`].
    fn read_i8(&mut self) -> (r: Result<i8, Error>)
        requires
            old(self).source_inv(),
        ensures
            final(self).source_inv(),
            match r {
                Ok(v) => old(self).stream().len() >= 1 && v == old(self).stream()[0] as i8 && final(self).stream() == old(self).stream().skip(1),
                Err(e) => e == (Error::End { required_count: 1 }) && old(self).stream().len() < 1
                    && final(self).stream() == Seq::<u8>::empty(),
            },
    {
        match self.read_u8() {
            Ok(v) => Ok(v as i8),
            Err(e) => Err(e),
        }
    }

    /// Reads a big-endian [`u16`].
    fn read_u16(&mut self) -> (r: Result<u16, Error>)
        requires
            old(self).source_inv(),
        ensures
            final(self).source_inv(),
            match r {
                Ok(v) => old(self).stream().len() >= 2 && v == spec_u16_from_be_bytes(
                    old(self).stream().take(2),
                ) && final(self).stream() == old(self).stream().skip(2),
                Err(e) => e == (Error::End { required_count: 2 }) && old(self).stream().len()
                    < 2 && final(self).stream() == Seq::<u8>::empty(),
            },
    {
        let mut tmp: Vec<u8> = Vec::new();
        self.read_exact_bytes(&mut tmp, 2)?;
        proof {
            assert(Seq::<u8>::empty() + old(self).stream().take(2) =~= old(self).stream().take(
                2,
            ));
        }
        Ok(u16_from_be_vec(&tmp))
    }

    /// Reads a big-endian [`i16`].
    fn read_i16(&mut self) -> (r: Result<i16, Error>)
        requires
            old(self).source_inv(),
        ensures
            final(self).source_inv(),
            match r {
                Ok(v) => old(self).stream().len() >= 2 && v == spec_u16_from_be_bytes(
                    old(self).stream().take(2),
                ) as i16 && final(self).stream() == old(self).stream().skip(2),
                Err(e) => e == (Error::End { required_count: 2 }) && old(self).stream().len()
                    < 2 && final(self).stream() == Seq::<u8>::empty(),
            },
    {
        match self.read_u16() {
            Ok(v) => Ok(v as i16),
            Err(e) => Err(e),
        }
    }

    /// Reads a little-endian [`u16`].
    fn read_u16_le(&mut self) -> (r: Result<u16, Error>)
        requires
            old(self).source_inv(),
        ensures
            final(self).source_inv(),
            match r {
                Ok(v) => old(self).stream().len() >= 2 && v == spec_u16_from_le_bytes(
                    old(self).stream().take(2),
                ) && final(self).stream() == old(self).stream().skip(2),
                Err(e) => e == (Error::End { required_count: 2 }) && old(self).stream().len()
                    < 2 && final(self).stream() == Seq::<u8>::empty(),
            },
    {
        let mut tmp: Vec<u8> = Vec::new();
        self.read_exact_bytes(&mut tmp, 2)?;
        proof {
            assert(Seq::<u8>::empty() + old(self).stream().take(2) =~= old(self).stream().take(
                2,
            ));
        }
        Ok(u16_from_le_vec(&tmp))
    }

    /// Reads a little-endian [`i16`].
    fn read_i16_le(&mut self) -> (r: Result<i16, Error>)
        requires
            old(self).source_inv(),
        ensures
            final(self).source_inv(),
            match r {
                Ok(v) => old(self).stream().len() >= 2 && v == spec_u16_from_le_bytes(
                    old(self).stream().take(2),
                ) as i16 && final(self).stream() == old(self).stream().skip(2),
                Err(e) => e == (Error::End { required_count: 2 }) && old(self).stream().len()
                    < 2 && final(self).stream() == Seq::<u8>::empty(),
            },
    {
        match self.read_u16_le() {
            Ok(v) => Ok(v as i16),
            Err(e) => Err(e),
        }
    }

    /// Reads a big-endian [`u32`].
    fn read_u32(&mut self) -> (r: Result<u32, Error>)
        requires
            old(self).source_inv(),
        ensures
            final(self).source_inv(),
            match r {
                Ok(v) => old(self).stream().len() >= 4 && v == spec_u32_from_be_bytes(
                    old(self).stream().take(4),
                ) && final(self).stream() == old(self).stream().skip(4),
                Err(e) => e == (Error::End { required_count: 4 }) && old(self).stream().len()
                    < 4 && final(self).stream() == Seq::<u8>::empty(),
            },
    {
        let mut tmp: Vec<u8> = Vec::new();
        self.read_exact_bytes(&mut tmp, 4)?;
        proof {
            assert(Seq::<u8>::empty() + old(self).stream().take(4) =~= old(self).stream().take(
                4,
            ));
        }
        Ok(u32_from_be_vec(&tmp))
    }

    /// Reads a big-endian [`i32`].
    fn read_i32(&mut self) -> (r: Result<i32, Error>)
        requires
            old(self).source_inv(),
        ensures
            final(self).source_inv(),
            match r {
                Ok(v) => old(self).stream().len() >= 4 && v == spec_u32_from_be_bytes(
                    old(self).stream().take(4),
                ) as i32 && final(self).stream() == old(self).stream().skip(4),
                Err(e) => e == (Error::End { required_count: 4 }) && old(self).stream().len()
                    < 4 && final(self).stream() == Seq::<u8>::empty(),
            },
    {
        match self.read_u32() {
            Ok(v) => Ok(v as i32),
            Err(e) => Err(e),
        }
    }

    /// Reads a little-endian [`u32`].
    fn read_u32_le(&mut self) -> (r: Result<u32, Error>)
        requires
            old(self).source_inv(),
        ensures
            final(self).source_inv(),
            match r {
                Ok(v) => old(self).stream().len() >= 4 && v == spec_u32_from_le_bytes(
                    old(self).stream().take(4),
                ) && final(self).stream() == old(self).stream().skip(4),
                Err(e) => e == (Error::End { required_count: 4 }) && old(self).stream().len()
                    < 4 && final(self).stream() == Seq::<u8>::empty(),
            },
    {
        let mut tmp: Vec<u8> = Vec::new();
        self.read_exact_bytes(&mut tmp, 4)?;
        proof {
            assert(Seq::<u8>::empty() + old(self).stream().take(4) =~= old(self).stream().take(
                4,
            ));
        }
        Ok(u32_from_le_vec(&tmp))
    }

    /// Reads a little-endian [`i32`].
    fn read_i32_le(&mut self) -> (r: Result<i32, Error>)
        requires
            old(self).source_inv(),
        ensures
            final(self).source_inv(),
            match r {
                Ok(v) => old(self).stream().len() >= 4 && v == spec_u32_from_le_bytes(
                    old(self).stream().take(4),
                ) as i32 && final(self).stream() == old(self).stream().skip(4),
                Err(e) => e == (Error::End { required_count: 4 }) && old(self).stream().len()
                    < 4 && final(self).stream() == Seq::<u8>::empty(),
            },
    {
        match self.read_u32_le() {
            Ok(v) => Ok(v as i32),
            Err(e) => Err(e),
        }
    }

    /// Reads a big-endian [`u64`].
    fn read_u64(&mut self) -> (r: Result<u64, Error>)
        requires
            old(self).source_inv(),
        ensures
            final(self).source_inv(),
            match r {
                Ok(v) => old(self).stream().len() >= 8 && v == spec_u64_from_be_bytes(
                    old(self).stream().take(8),
                ) && final(self).stream() == old(self).stream().skip(8),
                Err(e) => e == (Error::End { required_count: 8 }) && old(self).stream().len()
                    < 8 && final(self).stream() == Seq::<u8>::empty(),
            },
    {
        let mut tmp: Vec<u8> = Vec::new();
        self.read_exact_bytes(&mut tmp, 8)?;
        proof {
            assert(Seq::<u8>::empty() + old(self).stream().take(8) =~= old(self).stream().take(
                8,
            ));
        }
        Ok(u64_from_be_vec(&tmp))
    }

    /// Reads a big-endian [`i64`].
    fn read_i64(&mut self) -> (r: Result<i64, Error>)
        requires
            old(self).source_inv(),
        ensures
            final(self).source_inv(),
            match r {
                Ok(v) => old(self).stream().len() >= 8 && v == spec_u64_from_be_bytes(
                    old(self).stream().take(8),
                ) as i64 && final(self).stream() == old(self).stream().skip(8),
                Err(e) => e == (Error::End { required_count: 8 }) && old(self).stream().len()
                    < 8 && final(self).stream() == Seq::<u8>::empty(),
            },
    {
        match self.read_u64() {
            Ok(v) => Ok(v as i64),
            Err(e) => Err(e),
        }
    }

    /// Reads a little-endian [`u64`].
    fn read_u64_le(&mut self) -> (r: Result<u64, Error>)
        requires
            old(self).source_inv(),
        ensures
            final(self).source_inv(),
            match r {
                Ok(v) => old(self).stream().len() >= 8 && v == spec_u64_from_le_bytes(
                    old(self).stream().take(8),
                ) && final(self).stream() == old(self).stream().skip(8),
                Err(e) => e == (Error::End { required_count: 8 }) && old(self).stream().len()
                    < 8 && final(self).stream() == Seq::<u8>::empty(),
            },
    {
        let mut tmp: Vec<u8> = Vec::new();
        self.read_exact_bytes(&mut tmp, 8)?;
        proof {
            assert(Seq::<u8>::empty() + old(self).stream().take(8) =~= old(self).stream().take(
                8,
            ));
        }
        Ok(u64_from_le_vec(&tmp))
    }

    /// Reads a little-endian [`i64`].
    fn read_i64_le(&mut self) -> (r: Result<i64, Error>)
        requires
            old(self).source_inv(),
        ensures
            final(self).source_inv(),
            match r {
                Ok(v) => old(self).stream().len() >= 8 && v == spec_u64_from_le_bytes(
                    old(self).stream().take(8),
                ) as i64 && final(self).stream() == old(self).stream().skip(8),
                Err(e) => e == (Error::End { required_count: 8 }) && old(self).stream().len()
                    < 8 && final(self).stream() == Seq::<u8>::empty(),
            },
    {
        match self.read_u64_le() {
            Ok(v) => Ok(v as i64),
            Err(e) => Err(e),
        }
    }

    /// Reads a big-endian [`u128`].
    fn read_u128(&mut self) -> (r: Result<u128, Error>)
        requires
            old(self).source_inv(),
        ensures
            final(self).source_inv(),
            match r {
                Ok(v) => old(self).stream().len() >= 16 && v == spec_u128_from_be_bytes(
                    old(self).stream().take(16),
                ) && final(self).stream() == old(self).stream().skip(16),
                Err(e) => e == (Error::End { required_count: 16 }) && old(self).stream().len()
                    < 16 && final(self).stream() == Seq::<u8>::empty(),
            },
    {
        let mut tmp: Vec<u8> = Vec::new();
        self.read_exact_bytes(&mut tmp, 16)?;
        proof {
            assert(Seq::<u8>::empty() + old(self).stream().take(16) =~= old(self).stream().take(
                16,
            ));
        }
        Ok(u128_from_be_vec(&tmp))
    }

    /// Reads a big-endian [`i128`].
    fn read_i128(&mut self) -> (r: Result<i128, Error>)
        requires
            old(self).source_inv(),
        ensures
            final(self).source_inv(),
            match r {
                Ok(v) => old(self).stream().len() >= 16 && v == spec_u128_from_be_bytes(
                    old(self).stream().take(16),
                ) as i128 && final(self).stream() == old(self).stream().skip(16),
                Err(e) => e == (Error::End { required_count: 16 }) && old(self).stream().len()
                    < 16 && final(self).stream() == Seq::<u8>::empty(),
            },
    {
        match self.read_u128() {
            Ok(v) => Ok(v as i128),
            Err(e) => Err(e),
        }
    }

    /// Reads a little-endian [`u128`].
    fn read_u128_le(&mut self) -> (r: Result<u128, Error>)
        requires
            old(self).source_inv(),
        ensures
            final(self).source_inv(),
            match r {
                Ok(v) => old(self).stream().len() >= 16 && v == spec_u128_from_le_bytes(
                    old(self).stream().take(16),
                ) && final(self).stream() == old(self).stream().skip(16),
                Err(e) => e == (Error::End { required_count: 16 }) && old(self).stream().len()
                    < 16 && final(self).stream() == Seq::<u8>::empty(),
            },
    {
        let mut tmp: Vec<u8> = Vec::new();
        self.read_exact_bytes(&mut tmp, 16)?;
        proof {
            assert(Seq::<u8>::empty() + old(self).stream().take(16) =~= old(self).stream().take(
                16,
            ));
        }
        Ok(u128_from_le_vec(&tmp))
    }

    /// Reads a little-endian [`i128`].
    fn read_i128_le(&mut self) -> (r: Result<i128, Error>)
        requires
            old(self).source_inv(),
        ensures
            final(self).source_inv(),
            match r {
                Ok(v) => old(self).stream().len() >= 16 && v == spec_u128_from_le_bytes(
                    old(self).stream().take(16),
                ) as i128 && final(self).stream() == old(self).stream().skip(16),
                Err(e) => e == (Error::End { required_count: 16 }) && old(self).stream().len()
                    < 16 && final(self).stream() == Seq::<u8>::empty(),
            },
    {
        match self.read_u128_le() {
            Ok(v) => Ok(v as i128),
            Err(e) => Err(e),
        }
    }

    /// Reads a big-endian [`usize`]. To make streams consistent across
    /// platforms, [`usize`] is fixed to 8 bytes regardless of the target
    /// platform.
    fn read_usize(&mut self) -> (r: Result<usize, Error>)
        requires
            old(self).source_inv(),
        ensures
            final(self).source_inv(),
            match r {
                Ok(v) => old(self).stream().len() >= 8 && v == spec_u64_from_be_bytes(
                    old(self).stream().take(8),
                ) as usize && final(self).stream() == old(self).stream().skip(8),
                Err(e) => e == (Error::End { required_count: 8 }) && old(self).stream().len() < 8
                    && final(self).stream() == Seq::<u8>::empty(),
            },
    {
        match self.read_u64() {
            Ok(v) => Ok(v as usize),
            Err(e) => Err(e),
        }
    }

    /// Reads a little-endian [`usize`]. To make streams consistent across
    /// platforms, [`usize`] is fixed to 8 bytes regardless of the target
    /// platform.
    fn read_usize_le(&mut self) -> (r: Result<usize, Error>)
        requires
            old(self).source_inv(),
        ensures
            final(self).source_inv(),
            match r {
                Ok(v) => old(self).stream().len() >= 8 && v == spec_u64_from_le_bytes(
                    old(self).stream().take(8),
                ) as usize && final(self).stream() == old(self).stream().skip(8),
                Err(e) => e == (Error::End { required_count: 8 }) && old(self).stream().len() < 8
                    && final(self).stream() == Seq::<u8>::empty(),
            },
    {
        match self.read_u64_le() {
            Ok(v) => Ok(v as usize),
            Err(e) => Err(e),
        }
    }

    /// Reads a big-endian [`isize`]. To make streams consistent across
    /// platforms, [`isize`] is fixed to 8 bytes regardless of the target
    /// platform.
    fn read_isize(&mut self) -> (r: Result<isize, Error>)
        requires
            old(self).source_inv(),
        ensures
            final(self).source_inv(),
            match r {
                Ok(v) => old(self).stream().len() >= 8 && v == spec_u64_from_be_bytes(
                    old(self).stream().take(8),
                ) as isize && final(self).stream() == old(self).stream().skip(8),
                Err(e) => e == (Error::End { required_count: 8 }) && old(self).stream().len() < 8
                    && final(self).stream() == Seq::<u8>::empty(),
            },
    {
        match self.read_u64() {
            Ok(v) => Ok(v as isize),
            Err(e) => Err(e),
        }
    }

    /// Reads a little-endian [`isize`]. To make streams consistent across
    /// platforms, [`isize`] is fixed to 8 bytes regardless of the target
    /// platform.
    fn read_isize_le(&mut self) -> (r: Result<isize, Error>)
        requires
            old(self).source_inv(),
        ensures
            final(self).source_inv(),
            match r {
                Ok(v) => old(self).stream().len() >= 8 && v == spec_u64_from_le_bytes(
                    old(self).stream().take(8),
                ) as isize && final(self).stream() == old(self).stream().skip(8),
                Err(e) => e == (Error::End { required_count: 8 }) && old(self).stream().len() < 8
                    && final(self).stream() == Seq::<u8>::empty(),
            },
    {
        match self.read_u64_le() {
            Ok(v) => Ok(v as isize),
            Err(e) => Err(e),
        }
    }
}

/// Returns the largest multiple of `factor` that is at most `value`.
pub fn max_multiple_of(value: usize, factor: usize) -> (r: usize)
    requires
        factor > 0,
    ensures
        r == value as int / factor as int * factor as int,
        r <= value,
    {
    let q = value / factor;
    proof {
        vstd::arithmetic::div_mod::lemma_fundamental_div_mod(value as int, factor as int);
        vstd::arithmetic::div_mod::lemma_mod_bound(value as int, factor as int);
    }
    q * factor
}

/// Accesses a source's internal buffer: the filled region holding not yet
/// consumed bytes, a prefix of the stream, kept within a fixed capacity.
pub trait BufferAccess: DataSource {
    /// The capacity of the internal buffer.
    spec fn buf_cap(&self) -> nat;

    /// The filled region of the internal buffer, in logical order.
    spec fn buf_view(&self) -> Seq<u8>;

    /// The buffer holds a prefix of the stream and fits its capacity.
    proof fn buf_properties(&self)
        requires
            self.source_inv(),
        ensures
            self.buf_view() == self.stream().take(self.buf_view().len() as int),
            self.buf_view().len() <= self.buf_cap(),
    ;

    /// Returns the capacity of the internal buffer.
    fn buffer_capacity(&self) -> (r: usize)
        requires
            self.source_inv(),
        ensures
            r == self.buf_cap(),
    ;

    /// Returns the byte count contained in the internal buffer.
    fn buffer_count(&self) -> (r: usize)
        requires
            self.source_inv(),
        ensures
            r == self.buf_view().len(),
    ;

    /// Returns a contiguous slice over the front of the filled region. It
    /// may not cover the whole region — a buffer physically split in two
    /// returns its first part — but it is empty only when the region is.
    fn buffer(&self) -> (r: &[u8])
        requires
            self.source_inv(),
        ensures
            r@.len() <= self.buf_view().len(),
            r@ == self.buf_view().take(r@.len() as int),
            (r@.len() > 0 <==> self.buf_view().len() > 0),
    ;

    /// Fills the internal buffer from the underlying stream as far as its
    /// capacity allows, returning the filled count.
    fn fill_buffer(&mut self) -> (r: Result<usize, Error>)
        requires
            old(self).source_inv(),
        ensures
            final(self).source_inv(),
            final(self).stream() == old(self).stream(),
            final(self).buf_cap() == old(self).buf_cap(),
            final(self).buf_view().len() == min(
                old(self).buf_cap() as int,
                old(self).stream().len() as int,
            ),
            r matches Ok(n) && n == final(self).buf_view().len(),
    ;

    /// Consumes `count` bytes from the front of the internal buffer. The
    /// count must not exceed the filled region: exceeding it is a
    /// programming error, not a stream condition.
    fn drain_buffer(&mut self, count: usize)
        requires
            old(self).source_inv(),
            count <= old(self).buf_view().len(),
        ensures
            final(self).source_inv(),
            final(self).stream() == old(self).stream().skip(count as int),
            final(self).buf_view() == old(self).buf_view().skip(count as int),
            final(self).buf_cap() == old(self).buf_cap(),
    ;

    /// Empties the internal buffer, consuming everything it holds.
    fn clear_buffer(&mut self)
        requires
            old(self).source_inv(),
        ensures
            final(self).source_inv(),
            final(self).stream() == old(self).stream().skip(
                old(self).buf_view().len() as int,
            ),
            final(self).buf_view() == Seq::<u8>::empty(),
            final(self).buf_cap() == old(self).buf_cap(),
    {
        let n = self.buffer_count();
        self.drain_buffer(n);
        proof {
            assert(old(self).buf_view().skip(old(self).buf_view().len() as int)
                =~= Seq::<u8>::empty());
        }
    }
}

/// The spare capacity of a buffered source: its buffer capacity less what is
/// already obtainable, the bytes a request could still make room for.
pub open spec fn spec_spare_capacity(cap: nat, avail: nat) -> nat {
    if cap >= avail {
        (cap - avail) as nat
    } else {
        0
    }
}

/// The buffered adapter's request: succeed at once when enough bytes are
/// available; fail with `InsufficientBuffer` when the buffer structurally
/// cannot hold the requested count without draining first; otherwise fill
/// the buffer and compare.
pub fn default_request<S: BufferAccess>(source: &mut S, count: usize) -> (r: Result<bool, Error>)
    requires
        old(source).source_inv(),
    ensures
        final(source).source_inv(),
        final(source).stream() == old(source).stream(),
        final(source).buf_cap() == old(source).buf_cap(),
        ({
            let avail = old(source).stream().len() as nat;
            let spare = spec_spare_capacity(old(source).buf_cap(), avail);
            match r {
                Ok(b) => b == (avail >= count) && (avail >= count || count <= spare),
                Err(e) => avail < count && count > spare && e == (Error::InsufficientBuffer {
                    spare_capacity: spare as usize,
                    required_count: (count - avail) as usize,
                }),
            }
        }),
{
    let avail = source.available();
    if avail >= count {
        return Ok(true);
    }
    let cap = source.buffer_capacity();
    let spare = if cap >= avail {
        cap - avail
    } else {
        0
    };
    if count > spare {
        return Err(Error::insufficient_buffer(spare, count - avail));
    }
    let filled = match source.fill_buffer() {
        Ok(n) => n,
        Err(e) => {
            return Err(e);
        },
    };
    Ok(filled >= count)
}

/// The buffered adapter's skip: drains up to `count` bytes from what is
/// currently buffered, returning how many were consumed.
pub fn default_skip<S: BufferAccess>(source: &mut S, count: usize) -> (r: usize)
    requires
        old(source).source_inv(),
    ensures
        final(source).source_inv(),
        r == min(count as int, old(source).buf_view().len() as int),
        final(source).stream() == old(source).stream().skip(r as int),
        final(source).buf_cap() == old(source).buf_cap(),
{
    let buffered = source.buffer_count();
    let n = if count < buffered {
        count
    } else {
        buffered
    };
    source.drain_buffer(n);
    n
}

/// The buffered adapter's greedy read: repeatedly drains whatever is
/// buffered into the destination, refilling in between, until the requested
/// count is reached or the stream has nothing more.
pub fn buf_read_bytes<S: BufferAccess>(source: &mut S, dest: &mut Vec<u8>, count: usize) -> (r:
    Result<usize, Error>)
    requires
        old(source).source_inv(),
        old(source).buf_cap() > 0 || old(source).stream().len() == 0,
    ensures
        final(source).source_inv(),
        final(source).buf_cap() == old(source).buf_cap(),
        r matches Ok(n) && n == min(count as int, old(source).stream().len() as int),
        final(dest)@ == old(dest)@ + old(source).stream().take(
            min(count as int, old(source).stream().len() as int),
        ),
        final(source).stream() == old(source).stream().skip(
            min(count as int, old(source).stream().len() as int),
        ),
{
    let mut got: usize = 0;
    loop
        invariant
            source.source_inv(),
            source.buf_cap() == old(source).buf_cap(),
            old(source).buf_cap() > 0 || old(source).stream().len() == 0,
            got <= count,
            got <= old(source).stream().len(),
            source.stream() == old(source).stream().skip(got as int),
            dest@ == old(dest)@ + old(source).stream().take(got as int),
        ensures
            source.source_inv(),
            source.buf_cap() == old(source).buf_cap(),
            got as int == min(count as int, old(source).stream().len() as int),
            source.stream() == old(source).stream().skip(got as int),
            dest@ == old(dest)@ + old(source).stream().take(got as int),
        decreases count - got,
    {
        if got == count {
            break ;
        }
        let filled = match source.fill_buffer() {
            Ok(n) => n,
            Err(e) => {
                return Err(e);
            },
        };
        if filled == 0 {
            proof {
                assert(source.stream().len() == 0);
                assert(old(source).stream().take(got as int) =~= old(source).stream());
            }
            break ;
        }
        let b = source.buffer();
        let want = count - got;
        let take_n = if want < b.len() {
            want
        } else {
            b.len()
        };
        proof {
            source.buf_properties();
            assert(b@.subrange(0, take_n as int) =~= source.stream().take(take_n as int));
            assert(old(source).stream().take(got as int) + source.stream().take(take_n as int)
                =~= old(source).stream().take(got + take_n));
            assert(source.stream().skip(take_n as int) =~= old(source).stream().skip(
                got + take_n,
            ));
        }
        push_bytes(dest, slice_subrange(b, 0, take_n));
        source.drain_buffer(take_n);
        got = got + take_n;
    }
    proof {
        assert(got as int == min(count as int, old(source).stream().len() as int));
    }
    Ok(got)
}

/// The buffered adapter's exact read, handling the hard case of a buffer
/// smaller than the request: after a successful request the bytes are read
/// contiguously; a structurally too-small buffer degrades to the incremental
/// drain-then-refill path rather than failing; a short stream yields an
/// end-of-stream error after consuming what there was.
pub fn buf_read_exact_bytes<S: BufferAccess>(source: &mut S, dest: &mut Vec<u8>, count: usize) -> (r:
    Result<(), Error>)
    requires
        old(source).source_inv(),
        old(source).buf_cap() > 0 || old(source).stream().len() == 0,
    ensures
        final(source).source_inv(),
        read_exact_outcome(
            old(source).stream(),
            final(source).stream(),
            old(dest)@,
            final(dest)@,
            count as int,
            r,
        ),
{
    let enough = match default_request(source, count) {
        Ok(b) => b,
        Err(_) => {
            // The buffer cannot hold the request contiguously: fall back to
            // the incremental path, which decides end-of-stream by what it
            // could actually consume.
            let got = match buf_read_bytes(source, dest, count) {
                Ok(n) => n,
                Err(e) => {
                    return Err(e);
                },
            };
            proof {
                if got < count {
                    assert(old(source).stream().take(old(source).stream().len() as int) =~= old(
                        source,
                    ).stream());
                    assert(old(source).stream().skip(old(source).stream().len() as int)
                        =~= Seq::<u8>::empty());
                }
            }
            if got == count {
                return Ok(());
            } else {
                return Err(Error::end(count));
            }
        },
    };
    if enough {
        match buf_read_bytes(source, dest, count) {
            Ok(_) => Ok(()),
            Err(e) => Err(e),
        }
    } else {
        let avail = source.available();
        let got = match buf_read_bytes(source, dest, avail) {
            Ok(n) => n,
            Err(e) => {
                return Err(e);
            },
        };
        proof {
            assert(old(source).stream().take(old(source).stream().len() as int) =~= old(
                source,
            ).stream());
            assert(old(source).stream().skip(old(source).stream().len() as int)
                =~= Seq::<u8>::empty());
        }
        Err(Error::end(count))
    }
}

/// A source stream reading data into vectors.
pub trait VecSource: DataSource {
    /// Reads bytes into `dest` until the presumptive end of the stream,
    /// returning the count read.
    fn read_to_end(&mut self, dest: &mut Vec<u8>) -> (r: Result<usize, Error>)
        requires
            old(self).source_inv(),
        ensures
            final(self).source_inv(),
            r matches Ok(n) && n == old(self).stream().len(),
            final(dest)@ == old(dest)@ + old(self).stream(),
            final(self).stream() == Seq::<u8>::empty(),
    {
        let avail = self.available();
        let r = self.read_bytes(dest, avail);
        proof {
            assert(old(self).stream().take(old(self).stream().len() as int) =~= old(
                self,
            ).stream());
            assert(old(self).stream().skip(old(self).stream().len() as int)
                =~= Seq::<u8>::empty());
        }
        r
    }

    /// Reads UTF-8 text into `dest` until the end of the stream: the decoded
    /// valid prefix is appended, and the whole stream is consumed whether or
    /// not it was valid.
    fn read_utf8_to_end(&mut self, dest: &mut String) -> (r: Result<(), Error>)
        requires
            old(self).source_inv(),
        ensures
            final(self).source_inv(),
            final(self).stream() == Seq::<u8>::empty(),
            final(dest)@ == old(dest)@ + decode_utf8(
                old(self).stream().take(scan_valid_up_to(old(self).stream())),
            ),
            match r {
                Ok(()) => scan_utf8(old(self).stream()) is Valid,
                Err(e) => {
                    &&& !(scan_utf8(old(self).stream()) is Valid)
                    &&& e matches Error::Utf8(u)
                    &&& e matches Error::Utf8(u) ==> u.valid_up_to == scan_valid_up_to(
                        old(self).stream(),
                    ) && match scan_utf8(old(self).stream()) {
                        Utf8Scan::Valid => false,
                        Utf8Scan::Incomplete { .. } => u.kind == Utf8ErrorKind::IncompleteChar,
                        Utf8Scan::Invalid { valid_up_to, error_len } => u.kind
                            == (Utf8ErrorKind::InvalidBytes(error_len as u8)) || (old(
                            self,
                        ).stream().len() - valid_up_to < spec_utf8_char_width(
                            old(self).stream()[valid_up_to],
                        ) && u.kind == Utf8ErrorKind::IncompleteChar),
                    }
                },
            },
    {
        let avail = self.available();
        proof {
            assert(old(self).stream().take(old(self).stream().len() as int) =~= old(
                self,
            ).stream());
        }
        match self.read_utf8(dest, avail) {
            Ok(()) => Ok(()),
            Err(e) => {
                let rest = self.available();
                match self.skip(rest) {
                    Ok(_) => {
                        proof {
                            let pre = old(self).stream();
                            let v = scan_valid_up_to(pre);
                            assert(pre.skip(v).skip(pre.skip(v).len() as int)
                                =~= Seq::<u8>::empty());
                        }
                        Err(e)
                    },
                    Err(e2) => Err(e2),
                }
            },
        }
    }
}

impl VecSource for Cursor {

}

impl VecSource for RingBuffer {

}

/// The buffered adapter's aligned read: greedy, in whole multiples of
/// `alignment`. A zero alignment reads nothing; a buffer whose capacity
/// cannot hold even one alignment-sized unit fails with
/// `InsufficientBuffer` without reading.
pub fn buf_read_aligned_bytes<S: BufferAccess>(
    source: &mut S,
    dest: &mut Vec<u8>,
    count: usize,
    alignment: usize,
) -> (r: Result<usize, Error>)
    requires
        old(source).source_inv(),
    ensures
        final(source).source_inv(),
        ({
            let avail = old(source).stream().len() as int;
            if alignment == 0 {
                &&& r matches Ok(n) && n == 0
                &&& final(source).stream() == old(source).stream()
                &&& final(dest)@ == old(dest)@
            } else if old(source).buf_cap() < alignment {
                &&& r == Err::<usize, Error>(
                    Error::InsufficientBuffer {
                        spare_capacity: (old(source).buf_cap() - old(
                            source,
                        ).buf_view().len()) as usize,
                        required_count: alignment,
                    },
                )
                &&& final(source).stream() == old(source).stream()
                &&& final(dest)@ == old(dest)@
            } else {
                let n = min(
                    count as int / alignment as int * alignment as int,
                    avail / alignment as int * alignment as int,
                );
                &&& r matches Ok(k) && k == n
                &&& final(dest)@ == old(dest)@ + old(source).stream().take(n)
                &&& final(source).stream() == old(source).stream().skip(n)
            }
        }),
{
    if alignment == 0 {
        proof {
            assert(old(source).stream().skip(0) =~= old(source).stream());
            assert(old(dest)@ + old(source).stream().take(0) =~= old(dest)@);
        }
        let r = source.read_bytes(dest, 0);
        match r {
            Ok(_) => Ok(0),
            Err(e) => Err(e),
        }
    } else {
        let cap = source.buffer_capacity();
        if cap < alignment {
            let buffered = source.buffer_count();
            proof {
                source.buf_properties();
            }
            return Err(Error::insufficient_buffer(cap - buffered, alignment));
        }
        let want = max_multiple_of(count, alignment);
        let avail = source.available();
        let have = max_multiple_of(avail, alignment);
        let n = if want < have {
            want
        } else {
            have
        };
        match buf_read_bytes(source, dest, n) {
            Ok(_) => Ok(n),
            Err(e) => Err(e),
        }
    }
}

/// Exact-read atomicity: an operation meeting the exact-read contract
/// either delivers exactly the requested count or fails with an
/// end-of-stream error naming it; it never returns a shorter read silently.
pub proof fn lemma_exact_read_atomic(
    pre_stream: Seq<u8>,
    post_stream: Seq<u8>,
    pre_dest: Seq<u8>,
    post_dest: Seq<u8>,
    count: int,
    r: Result<(), Error>,
)
    requires
        0 <= count <= usize::MAX,
        read_exact_outcome(pre_stream, post_stream, pre_dest, post_dest, count, r),
    ensures
        r is Ok ==> post_dest == pre_dest + pre_stream.take(count) && post_dest.len()
            == pre_dest.len() + count,
        r is Err ==> (r matches Err(Error::End { required_count }) && required_count == count)
            && pre_stream.len() < count,
{
}

/// UTF-8 boundary invariance: the text-read contract pins the outcome down
/// by the logical content alone. Over a wholly valid window — however the
/// buffer's physical regions happen to split it — the read succeeds,
/// delivers exactly the window's characters, and consumes exactly the
/// window.
pub proof fn lemma_read_utf8_valid(
    pre_stream: Seq<u8>,
    post_stream: Seq<u8>,
    pre_dest: Seq<char>,
    post_dest: Seq<char>,
    count: int,
    r: Result<(), Error>,
)
    requires
        0 <= count,
        read_utf8_outcome(pre_stream, post_stream, pre_dest, post_dest, count, r),
        valid_utf8(pre_stream.take(min(count, pre_stream.len() as int))),
    ensures
        r is Ok,
        post_dest == pre_dest + decode_utf8(pre_stream.take(min(count, pre_stream.len() as int))),
        post_stream == pre_stream.skip(min(count, pre_stream.len() as int)),
{
    let window = pre_stream.take(min(count, pre_stream.len() as int));
    lemma_scan_valid_iff(window);
    lemma_scan_prefix_valid_utf8(window);
    assert(window.take(window.len() as int) =~= window);
}

/// UTF-8 failure localization: over a window that is not wholly valid —
/// regardless of how the buffer's physical regions split it — the read
/// reports a text error whose `valid_up_to` is the length of the window's
/// longest valid prefix, delivers exactly that prefix decoded, and consumes
/// exactly that many bytes.
pub proof fn lemma_read_utf8_localized(
    pre_stream: Seq<u8>,
    post_stream: Seq<u8>,
    pre_dest: Seq<char>,
    post_dest: Seq<char>,
    count: int,
    r: Result<(), Error>,
)
    requires
        0 <= count,
        read_utf8_outcome(pre_stream, post_stream, pre_dest, post_dest, count, r),
        !valid_utf8(pre_stream.take(min(count, pre_stream.len() as int))),
    ensures
        ({
            let window = pre_stream.take(min(count, pre_stream.len() as int));
            let v = scan_valid_up_to(window);
            &&& r matches Err(Error::Utf8(u)) && u.valid_up_to == v
            &&& post_dest == pre_dest + decode_utf8(window.take(v))
            &&& post_stream == pre_stream.skip(v)
        }),
{
    let window = pre_stream.take(min(count, pre_stream.len() as int));
    lemma_scan_valid_iff(window);
}

} // verus!
