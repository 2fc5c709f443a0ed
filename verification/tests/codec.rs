use data_streams::Cursor;
use data_streams::DataSink;
use data_streams::DataSource;
use data_streams::Error;

#[test]
fn write_u32_big_endian() {
    let mut buf: Vec<u8> = Vec::new();
    buf.write_u32(0x12345678).unwrap();
    assert_eq!(buf, vec![0x12, 0x34, 0x56, 0x78]);
}

#[test]
fn write_u32_little_endian() {
    let mut buf: Vec<u8> = Vec::new();
    buf.write_u32_le(0x12345678).unwrap();
    assert_eq!(buf, vec![0x78, 0x56, 0x34, 0x12]);
}

#[test]
fn read_exact_more_than_available() {
    let mut input = Cursor::new(vec![1, 2, 3, 4, 5, 6]);
    let mut buf: Vec<u8> = Vec::new();
    assert_eq!(
        input.read_exact_bytes(&mut buf, 7),
        Err(Error::End { required_count: 7 })
    );
    assert_eq!(buf, vec![1, 2, 3, 4, 5, 6]);
    assert_eq!(input.available(), 0);
}

#[test]
fn read_u16_pairs() {
    let mut input = Cursor::new(vec![0x12, 0x34, 0x56, 0x78]);
    assert_eq!(input.read_u16(), Ok(0x1234));
    assert_eq!(input.read_u16(), Ok(0x5678));
    assert_eq!(input.read_u16(), Err(Error::End { required_count: 2 }));
}

#[test]
fn read_u16_little_endian() {
    let mut input = Cursor::new(vec![0x12, 0x34, 0x56, 0x78]);
    assert_eq!(input.read_u16_le(), Ok(0x3412));
    assert_eq!(input.read_i16_le(), Ok(0x7856));
}

#[test]
fn read_u32_both_orders() {
    let mut input = Cursor::new(vec![0x12, 0x34, 0x56, 0x78]);
    assert_eq!(input.read_u32(), Ok(0x12345678));
    let mut input = Cursor::new(vec![0x12, 0x34, 0x56, 0x78]);
    assert_eq!(input.read_u32_le(), Ok(0x78563412));
}

#[test]
fn read_u64_and_usize() {
    let bytes = vec![0x12, 0x34, 0x56, 0x78, 0x9A, 0xBC, 0xDE, 0xF0];
    let mut input = Cursor::new(bytes.clone());
    assert_eq!(input.read_u64(), Ok(0x1234_5678_9ABC_DEF0));
    let mut input = Cursor::new(bytes.clone());
    assert_eq!(input.read_u64_le(), Ok(0xF0DE_BC9A_7856_3412));
    let mut input = Cursor::new(bytes.clone());
    assert_eq!(input.read_usize(), Ok(0x1234_5678_9ABC_DEF0));
    let mut input = Cursor::new(bytes);
    assert_eq!(input.read_isize(), Ok(0x1234_5678_9ABC_DEF0));
}

#[test]
fn read_u128_both_orders() {
    let bytes = vec![
        0x12, 0x34, 0x56, 0x78, 0x9A, 0xBC, 0xDE, 0xF0, 0x0F, 0xED, 0xCB, 0xA9, 0x87, 0x65, 0x43,
        0x21,
    ];
    let mut input = Cursor::new(bytes.clone());
    assert_eq!(input.read_u128(), Ok(0x1234_5678_9ABC_DEF0_0FED_CBA9_8765_4321));
    let mut input = Cursor::new(bytes);
    assert_eq!(input.read_u128_le(), Ok(0x2143_6587_A9CB_ED0F_F0DE_BC9A_7856_3412));
}

#[test]
fn read_signed_bytes() {
    let mut input = Cursor::new(vec![2, (-3i8) as u8, 5]);
    assert_eq!(input.read_i8(), Ok(2));
    assert_eq!(input.read_i8(), Ok(-3));
    assert_eq!(input.read_u8(), Ok(5));
    assert_eq!(input.read_u8(), Err(Error::End { required_count: 1 }));
}

#[test]
fn round_trip_every_width_and_order() {
    let mut buf: Vec<u8> = Vec::new();
    buf.write_u8(0xAB).unwrap();
    buf.write_i8(-100).unwrap();
    buf.write_u16(0xBEEF).unwrap();
    buf.write_u16_le(0xBEEF).unwrap();
    buf.write_i16(-12345).unwrap();
    buf.write_i16_le(-12345).unwrap();
    buf.write_u32(0xDEADBEEF).unwrap();
    buf.write_u32_le(0xDEADBEEF).unwrap();
    buf.write_i32(-123456789).unwrap();
    buf.write_i32_le(-123456789).unwrap();
    buf.write_u64(0x0123_4567_89AB_CDEF).unwrap();
    buf.write_u64_le(0x0123_4567_89AB_CDEF).unwrap();
    buf.write_i64(-0x0123_4567_89AB_CDEF).unwrap();
    buf.write_i64_le(-0x0123_4567_89AB_CDEF).unwrap();
    buf.write_u128(0x0123_4567_89AB_CDEF_0123_4567_89AB_CDEF).unwrap();
    buf.write_u128_le(0x0123_4567_89AB_CDEF_0123_4567_89AB_CDEF).unwrap();
    buf.write_i128(-0x0123_4567_89AB_CDEF_0123_4567_89AB_CDEF).unwrap();
    buf.write_i128_le(-0x0123_4567_89AB_CDEF_0123_4567_89AB_CDEF).unwrap();
    buf.write_usize(0x0123_4567_89AB_CDEF).unwrap();
    buf.write_usize_le(0x0123_4567_89AB_CDEF).unwrap();
    buf.write_isize(-0x0123_4567_89AB_CDEF).unwrap();
    buf.write_isize_le(-0x0123_4567_89AB_CDEF).unwrap();

    let mut input = Cursor::new(buf);
    assert_eq!(input.read_u8(), Ok(0xAB));
    assert_eq!(input.read_i8(), Ok(-100));
    assert_eq!(input.read_u16(), Ok(0xBEEF));
    assert_eq!(input.read_u16_le(), Ok(0xBEEF));
    assert_eq!(input.read_i16(), Ok(-12345));
    assert_eq!(input.read_i16_le(), Ok(-12345));
    assert_eq!(input.read_u32(), Ok(0xDEADBEEF));
    assert_eq!(input.read_u32_le(), Ok(0xDEADBEEF));
    assert_eq!(input.read_i32(), Ok(-123456789));
    assert_eq!(input.read_i32_le(), Ok(-123456789));
    assert_eq!(input.read_u64(), Ok(0x0123_4567_89AB_CDEF));
    assert_eq!(input.read_u64_le(), Ok(0x0123_4567_89AB_CDEF));
    assert_eq!(input.read_i64(), Ok(-0x0123_4567_89AB_CDEF));
    assert_eq!(input.read_i64_le(), Ok(-0x0123_4567_89AB_CDEF));
    assert_eq!(input.read_u128(), Ok(0x0123_4567_89AB_CDEF_0123_4567_89AB_CDEF));
    assert_eq!(input.read_u128_le(), Ok(0x0123_4567_89AB_CDEF_0123_4567_89AB_CDEF));
    assert_eq!(input.read_i128(), Ok(-0x0123_4567_89AB_CDEF_0123_4567_89AB_CDEF));
    assert_eq!(input.read_i128_le(), Ok(-0x0123_4567_89AB_CDEF_0123_4567_89AB_CDEF));
    assert_eq!(input.read_usize(), Ok(0x0123_4567_89AB_CDEF));
    assert_eq!(input.read_usize_le(), Ok(0x0123_4567_89AB_CDEF));
    assert_eq!(input.read_isize(), Ok(-0x0123_4567_89AB_CDEF));
    assert_eq!(input.read_isize_le(), Ok(-0x0123_4567_89AB_CDEF));
    assert_eq!(input.available(), 0);
}

#[test]
fn aligned_reads_truncate_to_whole_units() {
    let mut input = Cursor::new(b"Hello?!".to_vec());
    let mut buf: Vec<u8> = Vec::new();
    assert_eq!(input.read_aligned_bytes(&mut buf, 10, 2), Ok(6));
    assert_eq!(buf, b"Hello?".to_vec());
    let mut buf2: Vec<u8> = Vec::new();
    assert_eq!(input.read_aligned_bytes(&mut buf2, 10, 2), Ok(0));
    assert_eq!(buf2, Vec::<u8>::new());
    assert_eq!(input.read_aligned_bytes(&mut buf2, 10, 0), Ok(0));
}

#[test]
fn skip_and_request() {
    let mut input = Cursor::new(b"Hello!".to_vec());
    assert_eq!(input.request(3), Ok(true));
    assert_eq!(input.request(50), Ok(false));
    assert!(input.require(3).is_ok());
    assert_eq!(input.require(50), Err(Error::End { required_count: 50 }));
    assert_eq!(input.skip(3), Ok(3));
    assert_eq!(input.skip(8), Ok(3));
    assert_eq!(input.skip(8), Ok(0));
}
