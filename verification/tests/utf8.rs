use data_streams::Cursor;
use data_streams::DataSource;
use data_streams::Error;
use data_streams::RingBuffer;
use data_streams::Utf8ErrorKind;
use data_streams::VecSource;

fn ring_of(s: &[u8], split: usize) -> RingBuffer {
    RingBuffer::from_regions(s[..split].to_vec(), s[split..].to_vec())
}

#[test]
fn cursor_valid_text() {
    let mut input = Cursor::new("Hello! \u{1F44B}".as_bytes().to_vec());
    let mut out = String::new();
    assert_eq!(input.read_utf8(&mut out, 64), Ok(()));
    assert_eq!(out, "Hello! \u{1F44B}");
    assert_eq!(input.available(), 0);
}

#[test]
fn cursor_invalid_after_prefix() {
    let mut bytes = b"hello".to_vec();
    bytes.push(0xFF);
    let mut input = Cursor::new(bytes);
    let mut out = String::new();
    let result = input.read_utf8(&mut out, 64);
    match result {
        Err(Error::Utf8(e)) => {
            assert_eq!(e.valid_up_to(), 5);
            assert_eq!(e.error_len(), Some(1));
            assert_eq!(e.error_kind(), Utf8ErrorKind::InvalidBytes(1));
        },
        _ => panic!("expected a text error"),
    }
    assert_eq!(out, "hello");
    assert_eq!(input.available(), 1);
}

#[test]
fn ring_char_split_across_regions() {
    // The four-byte character split two bytes and two bytes across the
    // physical regions still reads back whole, after internal re-partition.
    let bytes = "\u{1F600}".as_bytes();
    assert_eq!(bytes.len(), 4);
    let mut ring = ring_of(bytes, 2);
    let mut out = String::new();
    assert_eq!(ring.read_utf8(&mut out, 16), Ok(()));
    assert_eq!(out, "\u{1F600}");
    assert_eq!(ring.available(), 0);
}

#[test]
fn ring_all_rotations_of_valid_text() {
    let text = "p\u{00E5} bl\u{00E5}b\u{00E6}rsyltet\u{00F8}y \u{1F600}\u{4E16}\u{754C}";
    let bytes = text.as_bytes();
    for split in 0..=bytes.len() {
        let mut ring = ring_of(bytes, split);
        let mut out = String::new();
        assert_eq!(ring.read_utf8(&mut out, bytes.len()), Ok(()), "split {split}");
        assert_eq!(out, text, "split {split}");
        assert_eq!(ring.available(), 0, "split {split}");
    }
}

#[test]
fn ring_all_rotations_localize_invalid_byte() {
    // A sequence with its first invalid byte at a fixed position: the
    // reported valid length and the consumed count must not depend on the
    // physical split.
    let mut bytes = "ab\u{00E9}".as_bytes().to_vec();
    let invalid_at = bytes.len();
    bytes.push(0xFF);
    bytes.extend_from_slice(b"cd");
    for split in 0..=bytes.len() {
        let mut ring = ring_of(&bytes, split);
        let mut out = String::new();
        let result = ring.read_utf8(&mut out, bytes.len());
        match result {
            Err(Error::Utf8(e)) => {
                assert_eq!(e.valid_up_to(), invalid_at, "split {split}");
            },
            _ => panic!("expected a text error at split {split}"),
        }
        assert_eq!(out, "ab\u{00E9}", "split {split}");
        assert_eq!(ring.available(), bytes.len() - invalid_at, "split {split}");
    }
}

#[test]
fn ring_incomplete_tail_is_reported_as_incomplete() {
    // A three-byte character with only two bytes present.
    let bytes = &"\u{4E16}".as_bytes()[..2];
    for split in 0..=bytes.len() {
        let mut ring = ring_of(bytes, split);
        let mut out = String::new();
        match ring.read_utf8(&mut out, 16) {
            Err(Error::Utf8(e)) => {
                assert_eq!(e.valid_up_to(), 0, "split {split}");
                assert_eq!(e.error_len(), None, "split {split}");
            },
            _ => panic!("expected a text error at split {split}"),
        }
        assert_eq!(out, "", "split {split}");
    }
}

#[test]
fn ring_count_cut_mid_char() {
    // Reading with a window that ends inside a character consumes only the
    // characters before it.
    let text = "a\u{00E9}z";
    let mut ring = ring_of(text.as_bytes(), 1);
    let mut out = String::new();
    // window of 2 bytes: 'a' plus the first byte of the two-byte character
    match ring.read_utf8(&mut out, 2) {
        Err(Error::Utf8(e)) => {
            assert_eq!(e.valid_up_to(), 1);
            assert_eq!(e.error_kind(), Utf8ErrorKind::IncompleteChar);
        },
        _ => panic!("expected a text error"),
    }
    assert_eq!(out, "a");
    assert_eq!(ring.available(), 3);
    // a second read with a wide enough window finishes the text
    out.clear();
    assert_eq!(ring.read_utf8(&mut out, 16), Ok(()));
    assert_eq!(out, "\u{00E9}z");
}

#[test]
fn read_utf8_to_end_consumes_everything() {
    let mut bytes = "hi \u{1F349}".as_bytes().to_vec();
    let mut input = Cursor::new(bytes.clone());
    let mut out = String::new();
    assert_eq!(input.read_utf8_to_end(&mut out), Ok(()));
    assert_eq!(out, "hi \u{1F349}");
    assert_eq!(input.available(), 0);

    bytes.push(0xC0);
    let mut input = Cursor::new(bytes);
    let mut out = String::new();
    match input.read_utf8_to_end(&mut out) {
        Err(Error::Utf8(e)) => assert_eq!(e.valid_up_to(), "hi \u{1F349}".len()),
        _ => panic!("expected a text error"),
    }
    assert_eq!(out, "hi \u{1F349}");
    assert_eq!(input.available(), 0);
}

#[test]
fn read_codepoint() {
    let mut input = Cursor::new("\u{1F349}x".as_bytes().to_vec());
    assert_eq!(input.read_utf8_codepoint(), Ok('\u{1F349}'));
    assert_eq!(input.read_utf8_codepoint(), Ok('x'));
    assert_eq!(input.read_utf8_codepoint(), Err(Error::End { required_count: 1 }));
}

#[test]
fn read_codepoint_invalid_lead() {
    let mut input = Cursor::new(vec![0xFF, b'a']);
    match input.read_utf8_codepoint() {
        Err(Error::Utf8(e)) => {
            assert_eq!(e.valid_up_to(), 0);
            assert_eq!(e.error_kind(), Utf8ErrorKind::InvalidBytes(1));
        },
        _ => panic!("expected a text error"),
    }
    assert_eq!(input.read_utf8_codepoint(), Ok('a'));
}

#[test]
fn read_codepoint_cut_short() {
    let mut input = Cursor::new("\u{1F349}".as_bytes()[..2].to_vec());
    assert_eq!(input.read_utf8_codepoint(), Err(Error::End { required_count: 3 }));
}

#[test]
fn invalid_sequences_report_maximal_prefix_length() {
    // A well-formed two-byte start of a three-byte character followed by a
    // non-continuation byte: two bytes must be skipped.
    let mut input = Cursor::new(vec![0xE1, 0x80, 0x41]);
    let mut out = String::new();
    match input.read_utf8(&mut out, 16) {
        Err(Error::Utf8(e)) => {
            assert_eq!(e.valid_up_to(), 0);
            assert_eq!(e.error_len(), Some(2));
        },
        _ => panic!("expected a text error"),
    }

    // Three good bytes of a four-byte character, then a letter.
    let mut input = Cursor::new(vec![0xF1, 0x80, 0x80, 0x41]);
    let mut out = String::new();
    match input.read_utf8(&mut out, 16) {
        Err(Error::Utf8(e)) => {
            assert_eq!(e.valid_up_to(), 0);
            assert_eq!(e.error_len(), Some(3));
        },
        _ => panic!("expected a text error"),
    }

    // An overlong encoding is rejected at its second byte.
    let mut input = Cursor::new(vec![0xE0, 0x80, 0x80]);
    let mut out = String::new();
    match input.read_utf8(&mut out, 16) {
        Err(Error::Utf8(e)) => {
            assert_eq!(e.valid_up_to(), 0);
            assert_eq!(e.error_len(), Some(1));
        },
        _ => panic!("expected a text error"),
    }

    // A surrogate encoding is rejected at its second byte.
    let mut input = Cursor::new(vec![0xED, 0xA0, 0x80]);
    let mut out = String::new();
    match input.read_utf8(&mut out, 16) {
        Err(Error::Utf8(e)) => {
            assert_eq!(e.valid_up_to(), 0);
            assert_eq!(e.error_len(), Some(1));
        },
        _ => panic!("expected a text error"),
    }
}

#[test]
fn char_width_table() {
    assert_eq!(data_streams::utf8_char_width(b'a'), 1);
    assert_eq!(data_streams::utf8_char_width(0xC1), 0);
    assert_eq!(data_streams::utf8_char_width(0xC2), 2);
    assert_eq!(data_streams::utf8_char_width(0xE0), 3);
    assert_eq!(data_streams::utf8_char_width(0xF4), 4);
    assert_eq!(data_streams::utf8_char_width(0xF5), 0);
    assert_eq!(data_streams::utf8_char_width(0x80), 0);
}
