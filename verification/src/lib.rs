//! Stream traits for reading and writing many data types: bytes, little- or
//! big-endian integers, and UTF-8 strings, with exact-length reads and
//! incremental text validation that can span a ring buffer's wrap point.
//!
//! [`DataSource`] reads from a stream and [`DataSink`] writes to one. Each
//! trait carries its contract: every operation states, over the source's
//! logical byte stream or the sink's committed bytes, exactly what it
//! consumes, delivers, and returns, including which error comes back on
//! which inputs. [`Cursor`] reads from owned bytes, [`RingBuffer`] is a
//! buffer split into two physical regions whose text reads splice characters
//! across the wrap point, and [`SliceSink`] is a sink with a hard capacity
//! limit.

mod codec;
mod cursor;
mod error;
mod ring;
mod sink;
mod slice;
mod source;
mod text;
mod utf8;

pub use codec::lemma_u128_round_trip;
pub use codec::lemma_u16_round_trip;
pub use codec::lemma_u32_round_trip;
pub use codec::lemma_u64_round_trip;
pub use codec::reverse_vec;
pub use codec::spec_u128_from_be_bytes;
pub use codec::spec_u128_to_be_bytes;
pub use codec::spec_u16_from_be_bytes;
pub use codec::spec_u16_to_be_bytes;
pub use codec::spec_u32_from_be_bytes;
pub use codec::spec_u32_to_be_bytes;
pub use codec::spec_u64_from_be_bytes;
pub use codec::spec_u64_to_be_bytes;
pub use cursor::cursor_as_slice;
pub use cursor::Cursor;
pub use error::AsciiError;
pub use error::Error;
pub use error::Utf8Error;
pub use error::Utf8ErrorKind;
pub use ring::RingBuffer;
pub use sink::lemma_overflow_conservation;
pub use sink::sink_fits;
pub use sink::sink_room_after;
pub use sink::write_outcome;
pub use sink::DataSink;
pub use sink::VecSink;
pub use slice::push_bytes;
pub use slice::subrange_vec;
pub use slice::SliceSink;
pub use source::buf_read_aligned_bytes;
pub use source::buf_read_bytes;
pub use source::buf_read_exact_bytes;
pub use source::default_request;
pub use source::default_skip;
pub use source::lemma_exact_read_atomic;
pub use source::lemma_read_utf8_localized;
pub use source::lemma_read_utf8_valid;
pub use source::markers::InfiniteSource;
pub use source::markers::SourceSize;
pub use source::max_multiple_of;
pub use source::read_ascii_outcome;
pub use source::read_exact_outcome;
pub use source::read_utf8_outcome;
pub use source::spec_spare_capacity;
pub use source::BufferAccess;
pub use source::DataSource;
pub use source::VecSource;
pub use text::string_write_bytes;
pub use text::string_write_utf8;
pub use text::string_write_utf8_codepoint;
pub use utf8::ascii_prefix_len;
pub use utf8::count_ascii;
pub use utf8::decode_char;
pub use utf8::encode_char_vec;
pub use utf8::scan_first_char;
pub use utf8::scan_utf8;
pub use utf8::scan_valid_up_to;
pub use utf8::spec_utf8_char_width;
pub use utf8::utf8_char_width;
pub use utf8::CharScan;
pub use utf8::Utf8Scan;
pub use utf8::Utf8Validation;
