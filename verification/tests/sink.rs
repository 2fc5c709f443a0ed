use data_streams::DataSink;
use data_streams::Error;
use data_streams::SliceSink;
use data_streams::DataSource;
use data_streams::VecSink;

#[test]
fn overflow_keeps_the_prefix() {
    let mut sink = SliceSink::new(3);
    let result = sink.write_bytes(&[1, 2, 3, 4, 5]);
    assert_eq!(result, Err(Error::Overflow { remaining: 2 }));
    assert_eq!(sink.as_slice(), &[1, 2, 3]);
}

#[test]
fn exact_fit_succeeds() {
    let mut sink = SliceSink::new(4);
    assert_eq!(sink.write_bytes(&[9, 8]), Ok(()));
    assert_eq!(sink.write_bytes(&[7, 6]), Ok(()));
    assert_eq!(sink.write_u8(5), Err(Error::Overflow { remaining: 1 }));
    assert_eq!(sink.into_vec(), vec![9, 8, 7, 6]);
}

#[test]
fn exact_capacity_takes_a_big_endian_word() {
    let mut sink = SliceSink::new(4);
    assert_eq!(sink.write_u32(0x12345678), Ok(()));
    assert_eq!(sink.into_vec(), vec![0x12, 0x34, 0x56, 0x78]);
    let mut sink = SliceSink::new(4);
    assert_eq!(sink.write_u32_le(0x12345678), Ok(()));
    assert_eq!(sink.into_vec(), vec![0x78, 0x56, 0x34, 0x12]);
}

#[test]
fn typed_write_overflows_with_remainder() {
    let mut sink = SliceSink::new(3);
    assert_eq!(sink.write_u32(0x12345678), Err(Error::Overflow { remaining: 1 }));
    assert_eq!(sink.as_slice(), &[0x12, 0x34, 0x56]);
}

#[test]
fn vec_sink_grows_without_limit() {
    let mut buf: Vec<u8> = Vec::new();
    buf.write_bytes(b"Hello!").unwrap();
    assert_eq!(buf, b"Hello!".to_vec());
    buf.write_utf8(" \u{1F349}").unwrap();
    assert_eq!(buf, "Hello! \u{1F349}".as_bytes().to_vec());
}

#[test]
fn write_codepoint_encodes_utf8() {
    let mut buf: Vec<u8> = Vec::new();
    buf.write_utf8_codepoint('\u{1F349}').unwrap();
    assert_eq!(buf, "\u{1F349}".as_bytes().to_vec());
    let mut buf: Vec<u8> = Vec::new();
    buf.write_utf8_codepoint('a').unwrap();
    buf.write_utf8_codepoint('\u{00E9}').unwrap();
    buf.write_utf8_codepoint('\u{4E16}').unwrap();
    assert_eq!(buf, "a\u{00E9}\u{4E16}".as_bytes().to_vec());
}

#[test]
fn write_ascii_bytes() {
    let mut buf: Vec<u8> = Vec::new();
    buf.write_ascii(b"Hello!").unwrap();
    assert_eq!(buf, b"Hello!".to_vec());
}

#[test]
fn owned_writes_delegate() {
    let mut buf: Vec<u8> = Vec::new();
    buf.write_owned_bytes(b"Hello!".to_vec()).unwrap();
    buf.write_owned_utf8(" world".to_string()).unwrap();
    assert_eq!(buf, b"Hello! world".to_vec());
}

#[test]
fn ring_buffer_as_bounded_sink() {
    let mut ring = data_streams::RingBuffer::new(4);
    assert_eq!(ring.write_bytes(&[1, 2, 3]), Ok(()));
    let mut out: Vec<u8> = Vec::new();
    ring.read_bytes(&mut out, 2).unwrap();
    assert_eq!(out, vec![1, 2]);
    assert_eq!(ring.write_bytes(&[4, 5, 6]), Ok(()));
    assert_eq!(ring.write_bytes(&[7, 8]), Err(Error::Overflow { remaining: 2 }));
    let mut rest: Vec<u8> = Vec::new();
    ring.read_bytes(&mut rest, 8).unwrap();
    assert_eq!(rest, vec![3, 4, 5, 6]);
}

#[test]
fn string_sink_accepts_valid_prefix() {
    let mut out = String::new();
    assert_eq!(data_streams::string_write_bytes(&mut out, "hi \u{1F349}".as_bytes()), Ok(()));
    assert_eq!(out, "hi \u{1F349}");

    let mut bytes = b"ok".to_vec();
    bytes.push(0xFF);
    match data_streams::string_write_bytes(&mut out, &bytes) {
        Err(Error::Utf8(e)) => assert_eq!(e.valid_up_to(), 2),
        _ => panic!("expected a text error"),
    }
    assert_eq!(out, "hi \u{1F349}ok");
}

#[test]
fn string_sink_plain_writes() {
    let mut out = String::new();
    data_streams::string_write_utf8(&mut out, "Hello");
    data_streams::string_write_utf8_codepoint(&mut out, '!');
    data_streams::string_write_utf8_codepoint(&mut out, '\u{1F349}');
    assert_eq!(out, "Hello!\u{1F349}");
}

#[test]
fn error_constructors() {
    assert_eq!(Error::overflow(2), Error::Overflow { remaining: 2 });
    assert_eq!(Error::end(7), Error::End { required_count: 7 });
    assert_eq!(
        Error::insufficient_buffer(3, 9),
        Error::InsufficientBuffer { spare_capacity: 3, required_count: 9 }
    );
    assert_eq!(
        Error::invalid_ascii(0xFF, 1, 2),
        Error::Ascii(data_streams::AsciiError {
            invalid_byte: 0xFF,
            valid_up_to: 1,
            consumed_count: 2
        })
    );
}
