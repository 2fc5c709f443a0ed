//! The closed set of failure kinds every other component reports through.

use vstd::prelude::*;

verus! {

/// A kind of UTF-8 error.
#[derive(Clone, Copy, Debug, PartialEq, Eq, Structural)]
pub enum Utf8ErrorKind {
    /// The end of the input was reached while reading a character.
    IncompleteChar,
    /// The next `1` to `3` bytes are invalid.
    InvalidBytes(u8),
}

/// Invalid or incomplete UTF-8 was encountered while reading.
#[derive(Clone, Copy, Debug, PartialEq, Eq, Structural)]
pub struct Utf8Error {
    /// The index in the input to which valid UTF-8 was verified.
    pub valid_up_to: usize,
    /// Whether the input ended mid-character or held invalid bytes.
    pub kind: Utf8ErrorKind,
}

impl Utf8Error {
    /// Returns the index in the input to which valid UTF-8 was verified.
    pub fn valid_up_to(&self) -> (r: usize)
        ensures
            r == self.valid_up_to,
    {
        self.valid_up_to
    }

    /// Returns the length, in range `1..=3`, of the invalid byte sequence, if
    /// any. Reading may continue with these removed. If `None` is returned, an
    /// incomplete character sequence was encountered. This could be a valid
    /// character whose sequence spans multiple buffer chunks.
    pub fn error_len(&self) -> (r: Option<usize>)
        ensures
            r == match self.kind {
                Utf8ErrorKind::IncompleteChar => None::<usize>,
                Utf8ErrorKind::InvalidBytes(n) => Some(n as usize),
            },
    {
        match self.kind {
            Utf8ErrorKind::IncompleteChar => None,
            Utf8ErrorKind::InvalidBytes(n) => Some(n as usize),
        }
    }

    /// Returns the kind of error encountered.
    pub fn error_kind(&self) -> (r: Utf8ErrorKind)
        ensures
            r == self.kind,
    {
        self.kind
    }
}

/// A non-ASCII byte was encountered while reading.
#[derive(Clone, Copy, Debug, PartialEq, Eq, Structural)]
pub struct AsciiError {
    /// The invalid byte, in range `128..256`.
    pub invalid_byte: u8,
    /// The index of the invalid byte to which the input was valid ASCII.
    pub valid_up_to: usize,
    /// The number of bytes consumed from the source, including any unchecked
    /// bytes after the invalid byte.
    pub consumed_count: usize,
}

impl AsciiError {
    /// Returns the invalid byte.
    pub fn invalid_byte(&self) -> (r: u8)
        ensures
            r == self.invalid_byte,
    {
        self.invalid_byte
    }

    /// Returns the index in the input to which valid ASCII was verified.
    pub fn valid_up_to(&self) -> (r: usize)
        ensures
            r == self.valid_up_to,
    {
        self.valid_up_to
    }

    /// Returns the total number of bytes consumed from the source, including
    /// any unchecked bytes after the invalid byte.
    pub fn consumed_count(&self) -> (r: usize)
        ensures
            r == self.consumed_count,
    {
        self.consumed_count
    }

    /// Returns the number of bytes consumed from the source after the invalid
    /// byte which haven't been checked.
    pub fn unchecked_count(&self) -> (r: usize)
        ensures
            r as int == if self.consumed_count >= 1 + self.valid_up_to {
                self.consumed_count - 1 - self.valid_up_to
            } else {
                0
            },
    {
        if self.consumed_count >= 1 && self.consumed_count - 1 >= self.valid_up_to {
            self.consumed_count - 1 - self.valid_up_to
        } else {
            0
        }
    }
}

/// A stream error.
#[derive(Clone, Copy, Debug, PartialEq, Eq, Structural)]
pub enum Error {
    /// An IO error in the underlying transport.
    Io,
    /// An invalid ASCII byte was encountered.
    Ascii(AsciiError),
    /// Invalid UTF-8 bytes were encountered.
    Utf8(Utf8Error),
    /// Error while attempting to reserve capacity.
    Allocation,
    /// A sink reached a hard storage limit, causing an overflow while writing.
    Overflow {
        /// The byte count remaining in the attempted write operation.
        remaining: usize,
    },
    /// Premature end-of-stream.
    End {
        /// The total required byte count.
        required_count: usize,
    },
    /// A "read to end" method was called on a source with no defined end.
    NoEnd,
    /// Buffer size is insufficient to buffer a read operation.
    InsufficientBuffer {
        /// The buffer's spare capacity.
        spare_capacity: usize,
        /// The total required byte count.
        required_count: usize,
    },
}

impl Error {
    /// Creates an ASCII error.
    pub fn invalid_ascii(invalid_byte: u8, valid_up_to: usize, consumed_count: usize) -> (r: Self)
        requires
            consumed_count >= valid_up_to,
        ensures
            r == (Error::Ascii(AsciiError { invalid_byte, valid_up_to, consumed_count })),
    {
        Self::Ascii(AsciiError { invalid_byte, valid_up_to, consumed_count })
    }

    /// Creates an overflow error.
    pub fn overflow(remaining: usize) -> (r: Self)
        ensures
            r == (Error::Overflow { remaining }),
    {
        Self::Overflow { remaining }
    }

    /// Creates an end-of-stream error.
    pub fn end(required_count: usize) -> (r: Self)
        ensures
            r == (Error::End { required_count }),
    {
        Self::End { required_count }
    }

    /// Creates an insufficient buffer capacity error.
    pub fn insufficient_buffer(spare_capacity: usize, required_count: usize) -> (r: Self)
        ensures
            r == (Error::InsufficientBuffer { spare_capacity, required_count }),
    {
        Self::InsufficientBuffer { spare_capacity, required_count }
    }
}

} // verus!
