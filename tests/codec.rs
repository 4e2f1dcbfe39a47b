use smol_pg::util::{DecodeError, EncodeError, Reader, Unexpected, Writer};

#[test]
fn reader_reads_big_endian_integers() {
    let bytes = [0x00, 0x03, 0x00, 0x00, 0xff, 0xfe, 0x7f];
    let mut reader = Reader::new(&bytes);
    assert_eq!(reader.peek_i32().unwrap(), 0x0003_0000);
    assert_eq!(reader.read_i32().unwrap(), 0x0003_0000);
    assert_eq!(reader.read_i16().unwrap(), -2);
    assert_eq!(reader.peek_u8().unwrap(), 0x7f);
    assert_eq!(reader.read_u8().unwrap(), 0x7f);
    assert!(reader.finish().is_ok());
}

#[test]
fn reader_reads_negative_i32() {
    let bytes = [0xff, 0xff, 0xff, 0xff, 0x80, 0x00, 0x00, 0x00];
    let mut reader = Reader::new(&bytes);
    assert_eq!(reader.read_i32().unwrap(), -1);
    assert_eq!(reader.read_i32().unwrap(), i32::MIN);
}

#[test]
fn reader_failed_read_keeps_position() {
    let bytes = [1, 2, 3];
    let mut reader = Reader::new(&bytes);
    assert_eq!(reader.read_i32(), Err(DecodeError::UnexpectedEof));
    assert_eq!(reader.read_i16().unwrap(), 0x0102);
    assert_eq!(reader.read_i16(), Err(DecodeError::UnexpectedEof));
    assert_eq!(reader.read_u8().unwrap(), 3);
    assert_eq!(reader.read_u8(), Err(DecodeError::UnexpectedEof));
    assert_eq!(reader.peek_u8(), Err(DecodeError::UnexpectedEof));
}

#[test]
fn reader_reads_cstrings() {
    let bytes = b"user\0postgres\0";
    let mut reader = Reader::new(bytes);
    assert_eq!(reader.read_cstring().unwrap(), "user");
    assert_eq!(reader.read_cstring().unwrap(), "postgres");
    assert!(reader.finish().is_ok());
}

#[test]
fn reader_cstring_without_nul_is_eof() {
    let bytes = b"abc";
    let mut reader = Reader::new(bytes);
    assert_eq!(reader.read_cstring(), Err(DecodeError::UnexpectedEof));
    assert_eq!(reader.read_u8().unwrap(), b'a');
}

#[test]
fn reader_cstring_rejects_invalid_utf8() {
    let bytes = [0x61, 0xff, 0xfe, 0x00];
    let mut reader = Reader::new(&bytes);
    assert_eq!(reader.read_cstring(), Err(DecodeError::Utf8Error));
    assert_eq!(reader.read_u8().unwrap(), 0x61);
}

#[test]
fn reader_cstring_keeps_multibyte_characters() {
    let bytes = "grüß\0".as_bytes();
    let mut reader = Reader::new(bytes);
    assert_eq!(reader.read_cstring().unwrap(), "grüß");
}

#[test]
fn reader_expectations() {
    let bytes = [b'R', 0, 0, 0, 8];
    let mut reader = Reader::new(&bytes);
    assert!(reader.expect_u8(b'R').is_ok());
    assert_eq!(
        reader.expect_u8(b'Z'),
        Err(DecodeError::UnexpectedByte { expected: b'Z', got: b'R' })
    );
    assert_eq!(reader.read_this_u8(b'R').unwrap(), b'R');
    assert!(reader.expect_i32(8).is_ok());
    assert_eq!(
        reader.expect_i32(9),
        Err(DecodeError::UnexpectedByte { expected: 9, got: 8 })
    );
}

#[test]
fn expect_i32_names_first_differing_byte() {
    let bytes = [0x00, 0x03, 0x00, 0x01];
    let reader = Reader::new(&bytes);
    assert!(reader.expect_i32(0x0003_0001).is_ok());
    assert_eq!(
        reader.expect_i32(0x0003_0000),
        Err(DecodeError::UnexpectedByte { expected: 0x00, got: 0x01 })
    );
    assert_eq!(
        reader.expect_i32(0x0002_0001),
        Err(DecodeError::UnexpectedByte { expected: 0x02, got: 0x03 })
    );
    let short = Reader::new(&bytes[..3]);
    assert_eq!(short.expect_i32(0), Err(DecodeError::UnexpectedEof));
}

#[test]
fn reader_mismatched_byte_is_consumed() {
    let bytes = [b'R', 7];
    let mut reader = Reader::new(&bytes);
    assert_eq!(
        reader.read_this_u8(b'Z'),
        Err(DecodeError::UnexpectedValue(Unexpected::Byte { expected: b'Z', got: b'R' }))
    );
    assert_eq!(reader.read_u8().unwrap(), 7);
}

#[test]
fn reader_bytes_and_skips() {
    let bytes = [1, 2, 3, 4, 5, 6];
    let mut reader = Reader::new(&bytes);
    assert_eq!(reader.peek_bytes::<2>().unwrap(), &[1, 2]);
    assert_eq!(reader.read_bytes(2).unwrap(), &[1, 2]);
    assert!(reader.ensure_remaining(4).is_ok());
    assert_eq!(reader.ensure_remaining(5), Err(DecodeError::UnexpectedEof));
    assert!(reader.ensure_remaining_exact(4).is_ok());
    assert_eq!(reader.ensure_remaining_exact(3), Err(DecodeError::UnexpectedEof));
    assert!(reader.skip(1).is_ok());
    assert_eq!(reader.skip(4), Err(DecodeError::UnexpectedEof));
    assert_eq!(reader.read_bytes_const::<1>().unwrap(), &[4]);
    reader.backtrack(2);
    assert_eq!(reader.read_u8().unwrap(), 3);
    reader.backtrack(100);
    assert_eq!(reader.read_u8().unwrap(), 1);
    assert_eq!(reader.read_remaining_bytes_exact(4), Err(DecodeError::UnexpectedEof));
    assert_eq!(reader.read_remaining_bytes_exact(5).unwrap(), &[2, 3, 4, 5, 6]);
    assert_eq!(reader.read_remaining_bytes().unwrap(), &[] as &[u8]);
    assert!(reader.finish().is_ok());
}

#[test]
fn reader_finish_requires_everything_read() {
    let bytes = [1, 2];
    let mut reader = Reader::new(&bytes);
    reader.read_u8().unwrap();
    assert_eq!(reader.finish(), Err(DecodeError::UnexpectedEof));
}

#[test]
fn writer_writes_big_endian() {
    let mut writer = Writer::new();
    writer.write_i32(0x0003_0000);
    writer.write_i32(-2);
    writer.write_i16(-2);
    writer.write_i16(0x0102);
    writer.write_u8(7);
    assert_eq!(writer.len(), 13);
    assert_eq!(
        writer.finish(),
        vec![0, 3, 0, 0, 0xff, 0xff, 0xff, 0xfe, 0xff, 0xfe, 1, 2, 7]
    );
}

#[test]
fn writer_cstrings_and_bytes() {
    let mut writer = Writer::default();
    writer.write_cstring("ab");
    writer.write_bytes(&[9, 8]);
    writer.skip(2);
    assert_eq!(writer.finish(), vec![b'a', b'b', 0, 9, 8, 0, 0]);
}

#[test]
fn writer_patches_length() {
    let mut writer = Writer::new();
    writer.skip(4);
    writer.write_cstring("x");
    let length = writer.len() as i32;
    assert!(writer.write_i32_at(length, 0).is_ok());
    assert_eq!(writer.write_i32_at(1, 3), Err(EncodeError::UnexpectedEof));
    assert_eq!(writer.finish(), vec![0, 0, 0, 6, b'x', 0]);
}

#[test]
fn writer_backtracks() {
    let mut writer = Writer::new();
    writer.write_bytes(&[1, 2, 3, 4]);
    writer.backtrack(1);
    assert_eq!(writer.len(), 3);
    assert_eq!(writer.try_backtrack(4), Err(DecodeError::UnexpectedEof));
    assert!(writer.try_backtrack(2).is_ok());
    assert_eq!(writer.len(), 1);
    writer.backtrack(10);
    assert_eq!(writer.finish(), Vec::<u8>::new());
}
