//! A ring buffer: owned byte storage whose logical content may be split into
//! two physically separate regions due to wraparound. The logical order is
//! the first region followed by the second. Reading UTF-8 from it uses the
//! boundary-splice algorithm: an incomplete multi-byte character straddling
//! the region boundary is healed by re-partitioning the same bytes so that
//! the boundary falls on a character boundary.

use vstd::math::min;
use vstd::prelude::*;
use vstd::slice::slice_subrange;

use crate::error::Error;
use crate::sink::DataSink;
use crate::slice::push_bytes;
use crate::slice::subrange_vec;
use crate::source::BufferAccess;
use crate::source::DataSource;
use crate::error::Utf8Error;
use crate::error::Utf8ErrorKind;
use crate::utf8::count_ascii;
use crate::utf8::lemma_ascii_prefix_len;
use crate::utf8::lemma_ascii_prefix_len_is;
use crate::utf8::lemma_scan_concat_invalid;
use crate::utf8::lemma_scan_concat_valid;
use crate::utf8::lemma_scan_first_facts;
use crate::utf8::lemma_scan_incomplete_head;
use crate::utf8::lemma_scan_prefix_valid_utf8;
use crate::utf8::lemma_scan_split;
use crate::utf8::lemma_scan_valid_iff;
use crate::utf8::scan_utf8;
use crate::utf8::string_from_utf8;
use crate::utf8::utf8_char_width;
use crate::utf8::validate_utf8;
use crate::utf8::Utf8Validation;
use vstd::utf8::decode_utf8;

verus! {

/// A buffer holding unconsumed bytes in up to two contiguous regions, the
/// concatenation of which is the logical content; it has a fixed total
/// capacity, chosen at creation.
pub struct RingBuffer {
    first: Vec<u8>,
    second: Vec<u8>,
    cap: usize,
}

impl RingBuffer {
    /// The total storage capacity.
    pub closed spec fn spec_capacity(&self) -> nat {
        self.cap as nat
    }

    /// The length of the first physical region.
    pub closed spec fn spec_first_len(&self) -> nat {
        self.first@.len()
    }

    /// The capacity not holding unconsumed bytes.
    pub closed spec fn spec_spare(&self) -> nat {
        if self.first@.len() + self.second@.len() <= self.cap {
            (self.cap - self.first@.len() - self.second@.len()) as nat
        } else {
            0
        }
    }

    /// The regions fit in the capacity, and the first region is empty only
    /// when the buffer is.
    closed spec fn wf(&self) -> bool {
        &&& self.first@.len() + self.second@.len() <= self.cap
        &&& (self.first@.len() == 0 ==> self.second@.len() == 0)
    }

    /// Creates an empty buffer with the given capacity.
    pub fn new(capacity: usize) -> (r: RingBuffer)
        ensures
            r.source_inv(),
            r.sink_inv(),
            r.stream() == Seq::<u8>::empty(),
            r.spec_capacity() == capacity,
    {
        let r = RingBuffer { first: Vec::new(), second: Vec::new(), cap: capacity };
        proof {
            assert(r.first@ + r.second@ =~= Seq::<u8>::empty());
        }
        r
    }

    /// Creates a buffer already split into two regions holding the given
    /// bytes, the first region before the second; its capacity is exactly
    /// their total length.
    pub fn from_regions(first: Vec<u8>, second: Vec<u8>) -> (r: RingBuffer)
        requires
            first@.len() + second@.len() <= usize::MAX,
        ensures
            r.source_inv(),
            r.sink_inv(),
            r.stream() == first@ + second@,
            r.spec_capacity() == first@.len() + second@.len(),
    {
        let cap = first.len() + second.len();
        let mut a = first;
        let mut b = second;
        if a.is_empty() {
            let t = b.split_off(0);
            a = t;
            b = Vec::new();
            proof {
                assert(a@ + b@ =~= first@ + second@);
            }
        }
        RingBuffer { first: a, second: b, cap }
    }

    /// Removes the first `count` bytes of the logical content, re-joining
    /// regions so that the first region is empty only when the buffer is.
    fn drain(&mut self, count: usize)
        requires
            old(self).wf(),
            count <= old(self).stream().len(),
        ensures
            final(self).wf(),
            final(self).stream() == old(self).stream().skip(count as int),
            final(self).spec_capacity() == old(self).spec_capacity(),
    {
        if count <= self.first.len() {
            let t = self.first.split_off(count);
            self.first = t;
            if self.first.is_empty() {
                let t2 = self.second.split_off(0);
                self.first = t2;
                self.second = Vec::new();
            }
            proof {
                assert(self.first@ + self.second@ =~= (old(self).first@ + old(self).second@).skip(
                    count as int,
                ));
            }
        } else {
            let k = count - self.first.len();
            let t = self.second.split_off(k);
            self.first = t;
            self.second = Vec::new();
            proof {
                assert(self.first@ + self.second@ =~= (old(self).first@ + old(self).second@).skip(
                    count as int,
                ));
            }
        }
    }

    /// Re-partitions the two regions, preserving the logical content, so
    /// that the first region ends after `boundary` bytes: the bytes of the
    /// first region past the boundary move to the front of the second. This
    /// reorders the buffer's internal layout; it does not change its
    /// content.
    fn repartition(&mut self, boundary: usize)
        requires
            old(self).wf(),
            boundary <= old(self).spec_first_len(),
        ensures
            final(self).wf(),
            final(self).stream() == old(self).stream(),
            final(self).spec_capacity() == old(self).spec_capacity(),
            final(self).spec_first_len() == if boundary > 0 {
                boundary as nat
            } else {
                old(self).stream().len()
            },
    {
        let mut t = self.first.split_off(boundary);
        t.append(&mut self.second);
        if self.first.is_empty() {
            self.first = t;
            self.second = Vec::new();
        } else {
            self.second = t;
        }
        proof {
            assert(self.first@ + self.second@ =~= old(self).first@ + old(self).second@);
        }
    }
}

impl DataSource for RingBuffer {
    closed spec fn stream(&self) -> Seq<u8> {
        self.first@ + self.second@
    }

    closed spec fn source_inv(&self) -> bool {
        self.wf()
    }

    fn available(&self) -> (r: usize) {
        self.first.len() + self.second.len()
    }

    fn request(&mut self, count: usize) -> (r: Result<bool, Error>) {
        Ok(self.first.len() + self.second.len() >= count)
    }

    fn skip(&mut self, count: usize) -> (r: Result<usize, Error>) {
        let avail = self.first.len() + self.second.len();
        let n = if count < avail {
            count
        } else {
            avail
        };
        self.drain(n);
        Ok(n)
    }

    fn read_bytes(&mut self, dest: &mut Vec<u8>, count: usize) -> (r: Result<usize, Error>) {
        let avail = self.first.len() + self.second.len();
        let n = if count < avail {
            count
        } else {
            avail
        };
        let from_first = if n < self.first.len() {
            n
        } else {
            self.first.len()
        };
        push_bytes(dest, slice_subrange(self.first.as_slice(), 0, from_first));
        push_bytes(dest, slice_subrange(self.second.as_slice(), 0, n - from_first));
        proof {
            assert(old(dest)@ + old(self).first@.subrange(0, from_first as int)
                + old(self).second@.subrange(0, n - from_first) =~= old(dest)@ + old(
                self,
            ).stream().take(n as int));
        }
        self.drain(n);
        Ok(n)
    }

    fn read_utf8(&mut self, dest: &mut String, count: usize) -> (r: Result<(), Error>) {
        ring_read_utf8(self, dest, count)
    }

    fn read_ascii(&mut self, dest: &mut Vec<u8>, count: usize) -> (r: Result<usize, Error>) {
        ring_read_ascii(self, dest, count)
    }
}

impl DataSink for RingBuffer {
    closed spec fn written(&self) -> Seq<u8> {
        self.first@ + self.second@
    }

    closed spec fn sink_inv(&self) -> bool {
        self.wf()
    }

    closed spec fn room(&self) -> Option<nat> {
        Option::Some(self.spec_spare())
    }

    fn write_bytes(&mut self, buf: &[u8]) -> (r: Result<(), Error>) {
        let len = self.first.len() + self.second.len();
        let spare = self.cap - len;
        let n = if buf.len() < spare {
            buf.len()
        } else {
            spare
        };
        let mut chunk = subrange_vec(buf, 0, n);
        if self.second.len() > 0 {
            self.second.append(&mut chunk);
        } else if self.first.len() > 0 {
            self.first.append(&mut chunk);
        } else {
            self.first = chunk;
        }
        proof {
            assert(self.first@ + self.second@ =~= (old(self).first@ + old(self).second@)
                + buf@.take(n as int));
        }
        if n == buf.len() {
            proof {
                assert(buf@.take(n as int) =~= buf@);
            }
            Ok(())
        } else {
            Err(Error::overflow(buf.len() - spare))
        }
    }
}

/// Reads ASCII from a two-region buffer: validate the first region, then the
/// second, and stitch; every ASCII byte is self-contained, so no re-partition
/// is ever needed.
fn ring_read_ascii(src: &mut RingBuffer, dest: &mut Vec<u8>, count: usize) -> (r: Result<
    usize,
    Error,
>)
    requires
        old(src).source_inv(),
    ensures
        final(src).source_inv(),
        crate::source::read_ascii_outcome(
            old(src).stream(),
            final(src).stream(),
            old(dest)@,
            final(dest)@,
            count as int,
            r,
        ),
{
    let avail = src.first.len() + src.second.len();
    let n = if count < avail {
        count
    } else {
        avail
    };
    let wa_len = if n < src.first.len() {
        n
    } else {
        src.first.len()
    };
    let wb_len = n - wa_len;
    let ghost window = old(src).stream().take(n as int);
    proof {
        assert(window =~= old(src).first@.subrange(0, wa_len as int) + old(src).second@.subrange(
            0,
            wb_len as int,
        ));
    }
    let sa = slice_subrange(src.first.as_slice(), 0, wa_len);
    let ca = count_ascii(sa);
    proof {
        lemma_ascii_prefix_len(sa@);
    }
    if ca < wa_len {
        let byte = sa[ca];
        push_bytes(dest, slice_subrange(sa, 0, ca));
        proof {
            lemma_ascii_prefix_len_is(window, ca as int);
            assert(sa@.subrange(0, ca as int) =~= window.take(ca as int));
        }
        src.drain(ca);
        Err(Error::invalid_ascii(byte, ca, ca))
    } else {
        let sb = slice_subrange(src.second.as_slice(), 0, wb_len);
        let cb = count_ascii(sb);
        proof {
            lemma_ascii_prefix_len(sb@);
        }
        let total = wa_len + cb;
        proof {
            lemma_ascii_prefix_len_is(window, total as int);
        }
        if cb < wb_len {
            let byte = sb[cb];
            push_bytes(dest, sa);
            push_bytes(dest, slice_subrange(sb, 0, cb));
            proof {
                assert(old(dest)@ + sa@ + sb@.subrange(0, cb as int) =~= old(dest)@ + window.take(
                    total as int,
                ));
            }
            src.drain(total);
            Err(Error::invalid_ascii(byte, total, total))
        } else {
            push_bytes(dest, sa);
            push_bytes(dest, sb);
            proof {
                assert(old(dest)@ + sa@ + sb@ =~= old(dest)@ + window.take(total as int));
            }
            src.drain(total);
            Ok(total)
        }
    }
}

/// Reads UTF-8 from a two-region buffer by the boundary-splice algorithm:
/// validate the first region; when it ends in an incomplete character whose
/// remainder the second region can supply, re-partition the regions at the
/// character boundary and validate the rest; otherwise report the outcome
/// with offsets stitched together.
#[verifier::rlimit(100)]
fn ring_read_utf8(src: &mut RingBuffer, dest: &mut String, count: usize) -> (r: Result<(), Error>)
    requires
        old(src).source_inv(),
    ensures
        final(src).source_inv(),
        crate::source::read_utf8_outcome(
            old(src).stream(),
            final(src).stream(),
            old(dest)@,
            final(dest)@,
            count as int,
            r,
        ),
{
    let avail = src.first.len() + src.second.len();
    let n = if count < avail {
        count
    } else {
        avail
    };
    let wa_len = if n < src.first.len() {
        n
    } else {
        src.first.len()
    };
    let wb_len = n - wa_len;
    let ghost window = old(src).stream().take(n as int);
    proof {
        assert(window.len() == n);
        assert(window =~= old(src).first@.subrange(0, wa_len as int) + old(src).second@.subrange(
            0,
            wb_len as int,
        ));
    }
    let wa = subrange_vec(src.first.as_slice(), 0, wa_len);
    let va = validate_utf8(wa.as_slice());
    proof {
        lemma_scan_split(wa@);
        lemma_scan_prefix_valid_utf8(wa@);
        assert(window =~= wa@ + window.skip(wa_len as int));
    }
    match va {
        Utf8Validation::Rejected { valid_up_to, error_len } => {
            // Genuinely invalid bytes in the first region: consume the valid
            // prefix and report; more bytes could not change the outcome.
            proof {
                lemma_scan_concat_invalid(wa@, window.skip(wa_len as int));
                assert(wa@.subrange(0, valid_up_to as int) =~= window.take(valid_up_to as int));
            }
            let wv = subrange_vec(wa.as_slice(), 0, valid_up_to);
            let text = string_from_utf8(wv);
            dest.append(text.as_str());
            src.drain(valid_up_to);
            Err(
                Error::Utf8(
                    Utf8Error { valid_up_to, kind: Utf8ErrorKind::InvalidBytes(error_len) },
                ),
            )
        },
        Utf8Validation::Partial { valid_up_to } => {
            // The first region ends inside a character encoding.
            let ghost tail = wa@.skip(valid_up_to as int);
            proof {
                lemma_scan_incomplete_head(tail);
                lemma_scan_first_facts(tail);
            }
            let width = utf8_char_width(wa[valid_up_to]);
            let incomplete = wa_len - valid_up_to;
            let needed = width - incomplete;
            proof {
                lemma_scan_concat_valid(wa@.take(valid_up_to as int), window.skip(
                    valid_up_to as int,
                ));
                assert(wa@.take(valid_up_to as int) + window.skip(valid_up_to as int) =~= window);
            }
            if wb_len < needed {
                // The character truly cannot complete here: consume the
                // valid prefix of the first region and report the cut.
                proof {
                    let rest = window.skip(valid_up_to as int);
                    assert(rest.len() == incomplete + wb_len);
                    assert(rest.len() < width);
                    assert(rest[0] == tail[0]);
                    lemma_scan_first_facts(rest);
                    lemma_scan_split(rest);
                    assert(wa@.subrange(0, valid_up_to as int) =~= window.take(
                        valid_up_to as int,
                    ));
                }
                let wv = subrange_vec(wa.as_slice(), 0, valid_up_to);
                let text = string_from_utf8(wv);
                dest.append(text.as_str());
                src.drain(valid_up_to);
                Err(
                    Error::Utf8(
                        Utf8Error { valid_up_to, kind: Utf8ErrorKind::IncompleteChar },
                    ),
                )
            } else {
                // The second region can supply the remainder: re-partition
                // at the character boundary, then validate the rest of the
                // window, which now lies wholly in the second region.
                proof {
                    assert(wb_len >= 1);
                    assert(wa_len == old(src).first@.len());
                    assert(wa@ =~= old(src).first@);
                }
                src.repartition(valid_up_to);
                if valid_up_to == 0 {
                    // The whole window now lies in the first region.
                    proof {
                        assert(src.first@ =~= old(src).stream());
                        assert(src.first@.subrange(0, n as int) =~= window);
                    }
                    let wz = subrange_vec(src.first.as_slice(), 0, n);
                    let vz = validate_utf8(wz.as_slice());
                    proof {
                        lemma_scan_split(wz@);
                        lemma_scan_prefix_valid_utf8(wz@);
                    }
                    match vz {
                        Utf8Validation::Valid => {
                            proof {
                                assert(wz@.subrange(0, n as int) =~= wz@);
                            }
                            let text = string_from_utf8(wz);
                            dest.append(text.as_str());
                            src.drain(n);
                            Ok(())
                        },
                        Utf8Validation::Partial { valid_up_to } => {
                            proof {
                                assert(wz@.subrange(0, valid_up_to as int) =~= window.take(
                                    valid_up_to as int,
                                ));
                            }
                            let wv = subrange_vec(wz.as_slice(), 0, valid_up_to);
                            let text = string_from_utf8(wv);
                            dest.append(text.as_str());
                            src.drain(valid_up_to);
                            Err(
                                Error::Utf8(
                                    Utf8Error {
                                        valid_up_to,
                                        kind: Utf8ErrorKind::IncompleteChar,
                                    },
                                ),
                            )
                        },
                        Utf8Validation::Rejected { valid_up_to, error_len } => {
                            proof {
                                assert(wz@.subrange(0, valid_up_to as int) =~= window.take(
                                    valid_up_to as int,
                                ));
                            }
                            let wv = subrange_vec(wz.as_slice(), 0, valid_up_to);
                            let text = string_from_utf8(wv);
                            dest.append(text.as_str());
                            src.drain(valid_up_to);
                            Err(
                                Error::Utf8(
                                    Utf8Error {
                                        valid_up_to,
                                        kind: Utf8ErrorKind::InvalidBytes(error_len),
                                    },
                                ),
                            )
                        },
                    }
                } else {
                    proof {
                        assert(wa@.take(valid_up_to as int) =~= window.take(valid_up_to as int));
                    }
                    ring_finish_tail(src, dest, wa, valid_up_to, n, Ghost(window))
                }
            }
        },
        Utf8Validation::Valid => {
            proof {
                lemma_scan_concat_valid(wa@, window.skip(wa_len as int));
                assert(wa@.take(wa@.len() as int) =~= wa@);
            }
            if n == 0 {
                proof {
                    assert(window =~= Seq::<u8>::empty());
                    assert(old(src).stream().skip(0) =~= old(src).stream());
                    assert(window.take(0) =~= Seq::<u8>::empty());
                    assert(old(dest)@ + decode_utf8(Seq::<u8>::empty()) =~= old(dest)@);
                }
                return Ok(());
            }
            proof {
                assert(wa_len >= 1);
                assert(wa_len == old(src).first@.len() || wb_len == 0);
                if wb_len > 0 {
                    assert(wa@ =~= old(src).first@);
                }
            }
            if wb_len == 0 {
                // The whole window lies in the first region and is valid.
                let text = string_from_utf8(wa);
                dest.append(text.as_str());
                src.drain(n);
                proof {
                    assert(window.take(n as int) =~= window);
                }
                Ok(())
            } else {
                src.repartition(wa_len);
                proof {
                    assert(wa@.take(wa_len as int) =~= wa@);
                    assert(window.take(wa_len as int) =~= wa@);
                }
                ring_finish_tail(src, dest, wa, wa_len, n, Ghost(window))
            }
        },
    }
}

/// Finishes a window read whose first `boundary` bytes, held in `prefix` and
/// known to be valid, end the first region: validates the rest of the window
/// out of the second region and stitches outcome offsets together.
fn ring_finish_tail(
    src: &mut RingBuffer,
    dest: &mut String,
    prefix: Vec<u8>,
    boundary: usize,
    n: usize,
    window: Ghost<Seq<u8>>,
) -> (r: Result<(), Error>)
    requires
        old(src).source_inv(),
        boundary >= 1,
        boundary <= n <= old(src).stream().len(),
        window@ == old(src).stream().take(n as int),
        prefix@.len() >= boundary,
        prefix@.take(boundary as int) == window@.take(boundary as int),
        scan_utf8(window@.take(boundary as int)) is Valid,
        old(src).spec_first_len() == boundary,
    ensures
        final(src).source_inv(),
        crate::source::read_utf8_outcome(
            old(src).stream(),
            final(src).stream(),
            old(dest)@,
            final(dest)@,
            n as int,
            r,
        ),
{
    proof {
        lemma_scan_concat_valid(window@.take(boundary as int), window@.skip(boundary as int));
        assert(window@.take(boundary as int) + window@.skip(boundary as int) =~= window@);
        assert(old(src).stream().take(n as int).take(boundary as int) =~= old(
            src,
        ).stream().take(boundary as int));
    }
    let wb = subrange_vec(src.second.as_slice(), 0, n - boundary);
    proof {
        assert(wb@ =~= window@.skip(boundary as int));
        lemma_scan_split(wb@);
        lemma_scan_prefix_valid_utf8(wb@);
    }
    let vb = validate_utf8(wb.as_slice());
    match vb {
        Utf8Validation::Valid => {
            let mut out = subrange_vec(prefix.as_slice(), 0, boundary);
            push_bytes(&mut out, wb.as_slice());
            proof {
                assert(out@ =~= window@);
                lemma_scan_valid_iff(out@);
                assert(window@.take(n as int) =~= window@);
            }
            let text = string_from_utf8(out);
            dest.append(text.as_str());
            src.drain(n);
            Ok(())
        },
        Utf8Validation::Partial { valid_up_to } => {
            let total = boundary + valid_up_to;
            let mut out = subrange_vec(prefix.as_slice(), 0, boundary);
            push_bytes(&mut out, slice_subrange(wb.as_slice(), 0, valid_up_to));
            proof {
                assert(out@ =~= window@.take(total as int));
                lemma_scan_concat_valid(window@.take(boundary as int), wb@.take(
                    valid_up_to as int,
                ));
                assert(window@.take(boundary as int) + wb@.take(valid_up_to as int) =~= window@.take(
                    total as int,
                ));
                lemma_scan_valid_iff(window@.take(total as int));
            }
            let text = string_from_utf8(out);
            dest.append(text.as_str());
            src.drain(total);
            Err(
                Error::Utf8(
                    Utf8Error { valid_up_to: total, kind: Utf8ErrorKind::IncompleteChar },
                ),
            )
        },
        Utf8Validation::Rejected { valid_up_to, error_len } => {
            let total = boundary + valid_up_to;
            let mut out = subrange_vec(prefix.as_slice(), 0, boundary);
            push_bytes(&mut out, slice_subrange(wb.as_slice(), 0, valid_up_to));
            proof {
                assert(out@ =~= window@.take(total as int));
                lemma_scan_concat_valid(window@.take(boundary as int), wb@.take(
                    valid_up_to as int,
                ));
                assert(window@.take(boundary as int) + wb@.take(valid_up_to as int) =~= window@.take(
                    total as int,
                ));
                lemma_scan_valid_iff(window@.take(total as int));
            }
            let text = string_from_utf8(out);
            dest.append(text.as_str());
            src.drain(total);
            Err(
                Error::Utf8(
                    Utf8Error {
                        valid_up_to: total,
                        kind: Utf8ErrorKind::InvalidBytes(error_len),
                    },
                ),
            )
        },
    }
}

impl BufferAccess for RingBuffer {
    closed spec fn buf_cap(&self) -> nat {
        self.cap as nat
    }

    closed spec fn buf_view(&self) -> Seq<u8> {
        self.first@ + self.second@
    }

    proof fn buf_properties(&self) {
        assert(self.buf_view() =~= self.stream().take(self.buf_view().len() as int));
    }

    fn buffer_capacity(&self) -> (r: usize) {
        self.cap
    }

    fn buffer_count(&self) -> (r: usize) {
        self.first.len() + self.second.len()
    }

    fn buffer(&self) -> (r: &[u8]) {
        let r = self.first.as_slice();
        proof {
            assert(r@ =~= self.buf_view().take(r@.len() as int));
        }
        r
    }

    fn fill_buffer(&mut self) -> (r: Result<usize, Error>) {
        Ok(self.first.len() + self.second.len())
    }

    fn drain_buffer(&mut self, count: usize) {
        self.drain(count);
    }
}

} // verus!
