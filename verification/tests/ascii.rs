use data_streams::AsciiError;
use data_streams::Cursor;
use data_streams::DataSource;
use data_streams::Error;

#[test]
fn empty() {
    let mut input = Cursor::new(Vec::new());
    let mut buf: Vec<u8> = Vec::new();
    assert_eq!(input.read_ascii(&mut buf, 256), Ok(0));
    assert_eq!(buf, Vec::<u8>::new());
}

#[test]
fn nominal() {
    let mut input = Cursor::new(b"hello world!".to_vec());
    let mut buf: Vec<u8> = Vec::new();
    assert_eq!(input.read_ascii(&mut buf, 256), Ok(12));
    assert_eq!(buf, b"hello world!".to_vec());
    assert_eq!(input.available(), 0);
}

#[test]
fn error_end() {
    let mut bytes = b"hello world!".to_vec();
    bytes.push(0xFF);
    let mut input = Cursor::new(bytes);
    let mut buf: Vec<u8> = Vec::new();
    let result = input.read_ascii(&mut buf, 256);
    assert_eq!(
        result,
        Err(Error::Ascii(AsciiError { invalid_byte: 0xFF, valid_up_to: 12, consumed_count: 12 }))
    );
    assert_eq!(&buf[..12], b"hello world!");
    let mut rest: Vec<u8> = Vec::new();
    input.read_bytes(&mut rest, 16).unwrap();
    assert_eq!(rest, vec![0xFF]);
}

#[test]
fn error_middle() {
    let mut bytes = b"hello".to_vec();
    bytes.push(0xFF);
    bytes.extend_from_slice(b" world!");
    let mut input = Cursor::new(bytes.clone());
    let mut buf: Vec<u8> = Vec::new();
    let result = input.read_ascii(&mut buf, 256);
    assert_eq!(
        result,
        Err(Error::Ascii(AsciiError { invalid_byte: 0xFF, valid_up_to: 5, consumed_count: 5 }))
    );
    assert_eq!(&buf[..5], b"hello");
    let mut rest: Vec<u8> = Vec::new();
    input.read_bytes(&mut rest, 256).unwrap();
    assert_eq!(rest, bytes[5..].to_vec());
}

#[test]
fn ring_ascii_split() {
    let mut ring = data_streams::RingBuffer::from_regions(b"hel".to_vec(), b"lo!".to_vec());
    let mut buf: Vec<u8> = Vec::new();
    assert_eq!(ring.read_ascii(&mut buf, 256), Ok(6));
    assert_eq!(buf, b"hello!".to_vec());
}

#[test]
fn ring_ascii_invalid_second_region() {
    let mut ring = data_streams::RingBuffer::from_regions(b"ab".to_vec(), vec![b'c', 0x80, b'd']);
    let mut buf: Vec<u8> = Vec::new();
    let result = ring.read_ascii(&mut buf, 256);
    assert_eq!(
        result,
        Err(Error::Ascii(AsciiError { invalid_byte: 0x80, valid_up_to: 3, consumed_count: 3 }))
    );
    assert_eq!(buf, b"abc".to_vec());
    assert_eq!(ring.available(), 2);
}

#[test]
fn unchecked_count_is_zero_when_consumed_equals_valid() {
    let err = AsciiError { invalid_byte: 0xFF, valid_up_to: 5, consumed_count: 5 };
    assert_eq!(err.invalid_byte(), 0xFF);
    assert_eq!(err.valid_up_to(), 5);
    assert_eq!(err.consumed_count(), 5);
    assert_eq!(err.unchecked_count(), 0);
    let err2 = AsciiError { invalid_byte: 0x80, valid_up_to: 2, consumed_count: 7 };
    assert_eq!(err2.unchecked_count(), 4);
}
