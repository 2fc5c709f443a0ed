use data_streams::BufferAccess;
use data_streams::Cursor;
use data_streams::DataSink;
use data_streams::DataSource;
use data_streams::Error;
use data_streams::RingBuffer;
use data_streams::SourceSize;
use data_streams::VecSource;

#[test]
fn request_reports_insufficient_buffer() {
    let mut ring = RingBuffer::new(4);
    ring.write_bytes(&[1, 2]).unwrap();
    assert_eq!(data_streams::default_request(&mut ring, 2), Ok(true));
    assert_eq!(
        data_streams::default_request(&mut ring, 10),
        Err(Error::InsufficientBuffer { spare_capacity: 2, required_count: 8 })
    );
    assert_eq!(
        data_streams::default_request(&mut ring, 3),
        Err(Error::InsufficientBuffer { spare_capacity: 2, required_count: 1 })
    );
    let mut roomy = RingBuffer::new(8);
    roomy.write_bytes(&[1, 2]).unwrap();
    assert_eq!(data_streams::default_request(&mut roomy, 5), Ok(false));
}

#[test]
fn buffered_exact_read_succeeds_within_buffer() {
    let mut ring = RingBuffer::new(8);
    ring.write_bytes(b"abcdef").unwrap();
    let mut out: Vec<u8> = Vec::new();
    assert_eq!(data_streams::buf_read_exact_bytes(&mut ring, &mut out, 4), Ok(()));
    assert_eq!(out, b"abcd".to_vec());
    assert_eq!(ring.available(), 2);
}

#[test]
fn buffered_exact_read_reports_end() {
    let mut ring = RingBuffer::new(8);
    ring.write_bytes(b"abc").unwrap();
    let mut out: Vec<u8> = Vec::new();
    assert_eq!(
        data_streams::buf_read_exact_bytes(&mut ring, &mut out, 5),
        Err(Error::End { required_count: 5 })
    );
    assert_eq!(out, b"abc".to_vec());
    assert_eq!(ring.available(), 0);
}

#[test]
fn buffered_exact_read_larger_than_capacity() {
    // A request larger than the whole buffer capacity degrades to the
    // incremental path instead of failing with InsufficientBuffer.
    let mut ring = RingBuffer::from_regions(b"abc".to_vec(), b"def".to_vec());
    let mut out: Vec<u8> = Vec::new();
    assert_eq!(data_streams::buf_read_exact_bytes(&mut ring, &mut out, 6), Ok(()));
    assert_eq!(out, b"abcdef".to_vec());
}

#[test]
fn aligned_buffered_read_needs_one_unit_of_capacity() {
    let mut ring = RingBuffer::from_regions(b"abc".to_vec(), b"de".to_vec());
    let mut out: Vec<u8> = Vec::new();
    assert_eq!(data_streams::buf_read_aligned_bytes(&mut ring, &mut out, 10, 2), Ok(4));
    assert_eq!(out, b"abcd".to_vec());
    assert_eq!(data_streams::buf_read_aligned_bytes(&mut ring, &mut out, 10, 8),
        Err(Error::InsufficientBuffer { spare_capacity: 4, required_count: 8 }));
    assert_eq!(data_streams::buf_read_aligned_bytes(&mut ring, &mut out, 10, 0), Ok(0));
}

#[test]
fn buffer_views_and_draining() {
    let mut ring = RingBuffer::from_regions(b"abc".to_vec(), b"de".to_vec());
    assert_eq!(ring.buffer_capacity(), 5);
    assert_eq!(ring.buffer_count(), 5);
    assert_eq!(ring.buffer(), b"abc");
    ring.drain_buffer(2);
    assert_eq!(ring.buffer(), b"c");
    ring.drain_buffer(1);
    assert_eq!(ring.buffer(), b"de");
    ring.clear_buffer();
    assert_eq!(ring.buffer_count(), 0);
}

#[test]
fn cursor_buffer_access() {
    let mut cur = Cursor::new(b"hello".to_vec());
    assert_eq!(cur.buffer_capacity(), 5);
    assert_eq!(cur.buffer(), b"hello");
    cur.drain_buffer(2);
    assert_eq!(cur.buffer(), b"llo");
    assert_eq!(cur.fill_buffer(), Ok(3));
    assert_eq!(data_streams::cursor_as_slice(&cur), b"hello");
    assert_eq!(data_streams::default_skip(&mut cur, 2), 2);
    assert_eq!(cur.available(), 1);
}

#[test]
fn size_bounds_are_exact_for_in_memory_sources() {
    let cur = Cursor::new(b"hello".to_vec());
    assert_eq!(cur.lower_bound(), 5);
    assert_eq!(cur.upper_bound(), Some(5));
    let ring = RingBuffer::from_regions(b"ab".to_vec(), b"c".to_vec());
    assert_eq!(ring.lower_bound(), 3);
    assert_eq!(ring.upper_bound(), Some(3));
}

#[test]
fn read_to_end_drains_the_source() {
    let mut ring = RingBuffer::from_regions(b"Hel".to_vec(), b"lo!".to_vec());
    let mut out: Vec<u8> = Vec::new();
    assert_eq!(ring.read_to_end(&mut out), Ok(6));
    assert_eq!(out, b"Hello!".to_vec());
    assert_eq!(ring.available(), 0);
}

#[test]
fn helpers_behave() {
    assert_eq!(data_streams::max_multiple_of(13, 4), 12);
    assert_eq!(data_streams::max_multiple_of(12, 4), 12);
    assert_eq!(data_streams::max_multiple_of(3, 4), 0);
    let v = data_streams::reverse_vec(&vec![1, 2, 3]);
    assert_eq!(v, vec![3, 2, 1]);
    assert_eq!(data_streams::count_ascii(b"abc"), 3);
    assert_eq!(data_streams::count_ascii(&[b'a', 0x80, b'b']), 1);
    assert_eq!(data_streams::encode_char_vec('\u{1F600}'), "\u{1F600}".as_bytes().to_vec());
    assert_eq!(data_streams::decode_char(&"\u{4E16}".as_bytes().to_vec()), '\u{4E16}');
}

#[test]
fn ring_write_after_read_wraps_logically() {
    let mut ring = RingBuffer::new(4);
    ring.write_bytes(&[1, 2, 3, 4]).unwrap();
    let mut out: Vec<u8> = Vec::new();
    ring.read_bytes(&mut out, 3).unwrap();
    ring.write_bytes(&[5, 6]).unwrap();
    let mut rest: Vec<u8> = Vec::new();
    ring.read_bytes(&mut rest, 4).unwrap();
    assert_eq!(rest, vec![4, 5, 6]);
}
