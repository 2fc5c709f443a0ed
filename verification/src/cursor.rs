//! An in-memory source reading from an owned byte buffer, with a cursor that
//! advances as bytes are consumed.

use vstd::math::min;
use vstd::prelude::*;
use vstd::slice::slice_subrange;

use crate::error::Error;
use crate::error::Utf8Error;
use crate::error::Utf8ErrorKind;
use crate::slice::push_bytes;
use crate::slice::subrange_vec;
use crate::source::BufferAccess;
use crate::source::DataSource;
use crate::utf8::count_ascii;
use crate::utf8::lemma_ascii_prefix_len;
use crate::utf8::lemma_scan_prefix_valid_utf8;
use crate::utf8::lemma_scan_valid_iff;
use crate::utf8::string_from_utf8;
use crate::utf8::validate_utf8;
use crate::utf8::Utf8Validation;

verus! {

/// A source over an owned byte buffer; reading consumes from the front by
/// advancing a cursor, leaving the underlying bytes in place.
pub struct Cursor {
    data: Vec<u8>,
    pos: usize,
}

impl Cursor {
    /// All bytes the cursor was created over, consumed or not.
    pub closed spec fn underlying(&self) -> Seq<u8> {
        self.data@
    }

    /// How many bytes have been consumed so far.
    pub closed spec fn spec_pos(&self) -> nat {
        self.pos as nat
    }

    /// Creates a cursor reading the given bytes from their start.
    pub fn new(data: Vec<u8>) -> (r: Cursor)
        ensures
            r.source_inv(),
            r.stream() == data@,
            r.underlying() == data@,
    {
        let r = Cursor { data, pos: 0 };
        proof {
            assert(r.data@.skip(0) =~= r.data@);
        }
        r
    }
}

/// Returns the whole slice underlying a cursor, consumed bytes included.
pub fn cursor_as_slice(cursor: &Cursor) -> (r: &[u8])
    ensures
        r@ == cursor.underlying(),
{
    cursor.data.as_slice()
}

impl DataSource for Cursor {
    closed spec fn stream(&self) -> Seq<u8> {
        self.data@.skip(self.pos as int)
    }

    closed spec fn source_inv(&self) -> bool {
        self.pos <= self.data@.len()
    }

    fn available(&self) -> (r: usize) {
        self.data.len() - self.pos
    }

    fn request(&mut self, count: usize) -> (r: Result<bool, Error>) {
        Ok(self.data.len() - self.pos >= count)
    }

    fn skip(&mut self, count: usize) -> (r: Result<usize, Error>) {
        let avail = self.data.len() - self.pos;
        let n = if count < avail {
            count
        } else {
            avail
        };
        self.pos = self.pos + n;
        proof {
            assert(self.data@.skip(self.pos as int) =~= old(self).stream().skip(n as int));
        }
        Ok(n)
    }

    fn read_bytes(&mut self, dest: &mut Vec<u8>, count: usize) -> (r: Result<usize, Error>) {
        let avail = self.data.len() - self.pos;
        let n = if count < avail {
            count
        } else {
            avail
        };
        push_bytes(dest, slice_subrange(self.data.as_slice(), self.pos, self.pos + n));
        self.pos = self.pos + n;
        proof {
            assert(self.data@.subrange(old(self).pos as int, old(self).pos + n) =~= old(
                self,
            ).stream().take(n as int));
            assert(self.data@.skip(self.pos as int) =~= old(self).stream().skip(n as int));
        }
        Ok(n)
    }

    fn read_utf8(&mut self, dest: &mut String, count: usize) -> (r: Result<(), Error>) {
        let avail = self.data.len() - self.pos;
        let n = if count < avail {
            count
        } else {
            avail
        };
        let w = subrange_vec(self.data.as_slice(), self.pos, self.pos + n);
        let ghost window = old(self).stream().take(
            min(count as int, old(self).stream().len() as int),
        );
        proof {
            assert(w@ =~= window);
            lemma_scan_prefix_valid_utf8(w@);
        }
        let val = validate_utf8(w.as_slice());
        match val {
            Utf8Validation::Valid => {
                proof {
                    lemma_scan_valid_iff(w@);
                    assert(w@.take(w@.len() as int) =~= w@);
                }
                let s = string_from_utf8(w);
                dest.append(s.as_str());
                self.pos = self.pos + n;
                proof {
                    assert(self.data@.skip(self.pos as int) =~= old(self).stream().skip(n as int));
                }
                Ok(())
            },
            Utf8Validation::Partial { valid_up_to } => {
                let wv = subrange_vec(w.as_slice(), 0, valid_up_to);
                proof {
                    assert(wv@ =~= window.take(valid_up_to as int));
                }
                let s = string_from_utf8(wv);
                dest.append(s.as_str());
                self.pos = self.pos + valid_up_to;
                proof {
                    assert(self.data@.skip(self.pos as int) =~= old(self).stream().skip(
                        valid_up_to as int,
                    ));
                }
                Err(Error::Utf8(Utf8Error { valid_up_to, kind: Utf8ErrorKind::IncompleteChar }))
            },
            Utf8Validation::Rejected { valid_up_to, error_len } => {
                let wv = subrange_vec(w.as_slice(), 0, valid_up_to);
                proof {
                    assert(wv@ =~= window.take(valid_up_to as int));
                }
                let s = string_from_utf8(wv);
                dest.append(s.as_str());
                self.pos = self.pos + valid_up_to;
                proof {
                    assert(self.data@.skip(self.pos as int) =~= old(self).stream().skip(
                        valid_up_to as int,
                    ));
                }
                Err(
                    Error::Utf8(
                        Utf8Error {
                            valid_up_to,
                            kind: Utf8ErrorKind::InvalidBytes(error_len),
                        },
                    ),
                )
            },
        }
    }

    fn read_ascii(&mut self, dest: &mut Vec<u8>, count: usize) -> (r: Result<usize, Error>) {
        let avail = self.data.len() - self.pos;
        let n = if count < avail {
            count
        } else {
            avail
        };
        let sl = slice_subrange(self.data.as_slice(), self.pos, self.pos + n);
        let ghost window = old(self).stream().take(
            min(count as int, old(self).stream().len() as int),
        );
        proof {
            assert(sl@ =~= window);
            lemma_ascii_prefix_len(sl@);
        }
        let c = count_ascii(sl);
        push_bytes(dest, slice_subrange(sl, 0, c));
        self.pos = self.pos + c;
        proof {
            assert(sl@.subrange(0, c as int) =~= window.take(c as int));
            assert(self.data@.skip(self.pos as int) =~= old(self).stream().skip(c as int));
        }
        if c == n {
            Ok(c)
        } else {
            let b = sl[c];
            Err(Error::invalid_ascii(b, c, c))
        }
    }
}

impl BufferAccess for Cursor {
    closed spec fn buf_cap(&self) -> nat {
        self.data@.len()
    }

    closed spec fn buf_view(&self) -> Seq<u8> {
        self.data@.skip(self.pos as int)
    }

    proof fn buf_properties(&self) {
        assert(self.buf_view() =~= self.stream().take(self.buf_view().len() as int));
    }

    fn buffer_capacity(&self) -> (r: usize) {
        self.data.len()
    }

    fn buffer_count(&self) -> (r: usize) {
        self.data.len() - self.pos
    }

    fn buffer(&self) -> (r: &[u8]) {
        let r = slice_subrange(self.data.as_slice(), self.pos, self.data.len());
        proof {
            assert(r@ =~= self.buf_view().take(r@.len() as int));
        }
        r
    }

    fn fill_buffer(&mut self) -> (r: Result<usize, Error>) {
        Ok(self.data.len() - self.pos)
    }

    fn drain_buffer(&mut self, count: usize) {
        let total = self.data.len();
        proof {
            assert(old(self).buf_view().len() == total - self.pos);
        }
        self.pos = self.pos + count;
        proof {
            assert(self.data@.skip(self.pos as int) =~= old(self).stream().skip(count as int));
        }
    }
}

} // verus!
