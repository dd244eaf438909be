//! Parsing of the MIME type list.
use zim_reader::mime::parse_mime_table;
use zim_reader::Error;

#[test]
fn parses_two_entries() {
    let mut buf = Vec::new();
    buf.extend_from_slice(b"text/html\0");
    buf.extend_from_slice(b"image/png\0");
    buf.push(0); // terminator
    let types = parse_mime_table(&buf, 0).unwrap();
    assert_eq!(
        types,
        vec!["text/html".to_string(), "image/png".to_string()]
    );
}

#[test]
fn parses_empty_list() {
    let buf = [0u8];
    let types = parse_mime_table(&buf, 0).unwrap();
    assert!(types.is_empty());
}

#[test]
fn parses_with_offset() {
    let mut buf = vec![0xFF; 10];
    buf.extend_from_slice(b"text/plain\0");
    buf.push(0);
    let types = parse_mime_table(&buf, 10).unwrap();
    assert_eq!(types, vec!["text/plain".to_string()]);
}

#[test]
fn rejects_invalid_utf8() {
    let buf = [0xFF, 0xFE, 0x00, 0x00];
    assert!(matches!(
        parse_mime_table(&buf, 0),
        Err(Error::InvalidUtf8(_))
    ));
}

#[test]
fn rejects_missing_terminator() {
    let buf = b"text/html\0image/png"; // no trailing \0
    assert!(matches!(
        parse_mime_table(buf, 0),
        Err(Error::OffsetOutOfBounds { .. })
    ));
}

#[test]
fn mime_list_outside_the_buffer() {
    assert!(matches!(
        parse_mime_table(&[0u8], 2),
        Err(Error::OffsetOutOfBounds { offset: 2, field: "cstring" })
    ));
    assert!(matches!(
        parse_mime_table(&[0u8], u64::MAX),
        Err(Error::OffsetOutOfBounds { field: "cstring", .. })
    ));
}

#[test]
fn mime_list_stops_at_the_first_empty_string() {
    let types = parse_mime_table(b"a/b\0\0c/d\0\0", 0).unwrap();
    assert_eq!(types, vec!["a/b".to_string()]);
}
