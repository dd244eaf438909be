//! Bounded reads and null-terminated strings.
use zim_reader::util::{read_cstring, read_u16_le, read_u32_le, read_u64_le};
use zim_reader::Error;

#[test]
fn read_integers_little_endian() {
    let buf = [0x01, 0x02, 0x03, 0x04, 0x05, 0x06, 0x07, 0x08];
    assert_eq!(read_u16_le(&buf, 0, "x").unwrap(), 0x0201);
    assert_eq!(read_u32_le(&buf, 0, "x").unwrap(), 0x04030201);
    assert_eq!(read_u64_le(&buf, 0, "x").unwrap(), 0x0807060504030201);
}

#[test]
fn read_u32_out_of_bounds() {
    let buf = [0x01, 0x02, 0x03];
    let err = read_u32_le(&buf, 0, "my_field").unwrap_err();
    match err {
        Error::OffsetOutOfBounds { field, .. } => assert_eq!(field, "my_field"),
        other => panic!("unexpected error: {other:?}"),
    }
}

#[test]
fn cstring_empty() {
    let buf = b"\0rest";
    let (s, n) = read_cstring(buf, 0).unwrap();
    assert_eq!(s, "");
    assert_eq!(n, 1);
}

#[test]
fn cstring_basic() {
    let buf = b"hello\0world\0";
    let (s, n) = read_cstring(buf, 0).unwrap();
    assert_eq!(s, "hello");
    assert_eq!(n, 6);
    let (s2, n2) = read_cstring(buf, n).unwrap();
    assert_eq!(s2, "world");
    assert_eq!(n2, 6);
}

#[test]
fn cstring_multibyte_utf8() {
    let buf = "café\0".as_bytes();
    let (s, n) = read_cstring(buf, 0).unwrap();
    assert_eq!(s, "café");
    assert_eq!(n, buf.len());
}

#[test]
fn cstring_missing_terminator() {
    let buf = b"no null here";
    assert!(matches!(
        read_cstring(buf, 0),
        Err(Error::OffsetOutOfBounds { .. })
    ));
}

#[test]
fn cstring_invalid_utf8() {
    let buf = [0xFF, 0xFE, 0x00];
    assert!(matches!(read_cstring(&buf, 0), Err(Error::InvalidUtf8(_))));
}

#[test]
fn reads_report_offset_and_field() {
    let buf = [0u8; 8];
    assert!(matches!(
        read_u16_le(&buf, 7, "a"),
        Err(Error::OffsetOutOfBounds { offset: 7, field: "a" })
    ));
    assert!(matches!(
        read_u64_le(&buf, 1, "b"),
        Err(Error::OffsetOutOfBounds { offset: 1, field: "b" })
    ));
    assert!(matches!(
        read_u32_le(&buf, usize::MAX, "c"),
        Err(Error::OffsetOutOfBounds { field: "c", .. })
    ));
    assert!(read_u64_le(&buf, 0, "d").is_ok());
}

#[test]
fn reads_of_written_numbers_give_them_back() {
    for n in [0u64, 1, 255, 256, 0x0102_0304_0506_0708, u64::MAX] {
        let mut buf = vec![0xAA; 3];
        buf.extend_from_slice(&n.to_le_bytes());
        buf.push(0xBB);
        assert_eq!(read_u64_le(&buf, 3, "x").unwrap(), n);
    }
    assert_eq!(read_u32_le(&u32::MAX.to_le_bytes(), 0, "x").unwrap(), u32::MAX);
    assert_eq!(read_u16_le(&u16::MAX.to_le_bytes(), 0, "x").unwrap(), u16::MAX);
}

#[test]
fn cstring_errors_carry_the_offset() {
    assert!(matches!(
        read_cstring(b"ab", 3),
        Err(Error::OffsetOutOfBounds { offset: 3, field: "cstring" })
    ));
    assert!(matches!(
        read_cstring(b"ab", 2),
        Err(Error::OffsetOutOfBounds { offset: 2, field: "cstring (no null terminator)" })
    ));
    assert!(matches!(
        read_cstring(&[b'x', 0xFF, 0], 1),
        Err(Error::InvalidUtf8(1))
    ));
}
