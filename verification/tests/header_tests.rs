//! Parsing of the header.
use zim_reader::header::{format_uuid, HEADER_SIZE, U32_ABSENT, ZIM_MAGIC};
use zim_reader::{Error, Header};

fn good_header_bytes() -> Vec<u8> {
    let mut buf = Vec::with_capacity(HEADER_SIZE);
    buf.extend_from_slice(&ZIM_MAGIC.to_le_bytes()); // 0..4   magic
    buf.extend_from_slice(&6u16.to_le_bytes()); // 4..6   major
    buf.extend_from_slice(&1u16.to_le_bytes()); // 6..8   minor
    buf.extend_from_slice(&[0xAB; 16]); // 8..24  uuid
    buf.extend_from_slice(&42u32.to_le_bytes()); // 24..28 entry_count
    buf.extend_from_slice(&7u32.to_le_bytes()); // 28..32 cluster_count
    buf.extend_from_slice(&200u64.to_le_bytes()); // 32..40 path_ptr_pos
    buf.extend_from_slice(&400u64.to_le_bytes()); // 40..48 title_ptr_pos
    buf.extend_from_slice(&600u64.to_le_bytes()); // 48..56 cluster_ptr_pos
    buf.extend_from_slice(&80u64.to_le_bytes()); // 56..64 mime_list_pos
    buf.extend_from_slice(&3u32.to_le_bytes()); // 64..68 main_page
    buf.extend_from_slice(&U32_ABSENT.to_le_bytes()); // 68..72 layout_page
    buf.extend_from_slice(&1024u64.to_le_bytes()); // 72..80 checksum_pos
    assert_eq!(buf.len(), HEADER_SIZE);
    buf
}

#[test]
fn parses_good_header() {
    let buf = good_header_bytes();
    let h = Header::parse(&buf).unwrap();
    assert_eq!(h.magic_number, ZIM_MAGIC);
    assert_eq!(h.major_version, 6);
    assert_eq!(h.minor_version, 1);
    assert_eq!(h.uuid, [0xAB; 16]);
    assert_eq!(h.entry_count, 42);
    assert_eq!(h.cluster_count, 7);
    assert_eq!(h.path_ptr_pos, 200);
    assert_eq!(h.title_ptr_pos, 400);
    assert_eq!(h.cluster_ptr_pos, 600);
    assert_eq!(h.mime_list_pos, 80);
    assert_eq!(h.main_page, Some(3));
    assert_eq!(h.layout_page, None);
    assert_eq!(h.checksum_pos, 1024);
}

#[test]
fn rejects_truncated() {
    let buf = vec![0u8; 50];
    assert!(matches!(
        Header::parse(&buf),
        Err(Error::TruncatedHeader(50))
    ));
}

#[test]
fn rejects_bad_magic() {
    let mut buf = good_header_bytes();
    buf[0..4].copy_from_slice(&0xDEAD_BEEFu32.to_le_bytes());
    assert!(matches!(
        Header::parse(&buf),
        Err(Error::InvalidMagic(0xDEADBEEF))
    ));
}

#[test]
fn rejects_version_4() {
    let mut buf = good_header_bytes();
    buf[4..6].copy_from_slice(&4u16.to_le_bytes());
    assert!(matches!(
        Header::parse(&buf),
        Err(Error::UnsupportedVersion(4))
    ));
}

#[test]
fn rejects_version_7() {
    let mut buf = good_header_bytes();
    buf[4..6].copy_from_slice(&7u16.to_le_bytes());
    assert!(matches!(
        Header::parse(&buf),
        Err(Error::UnsupportedVersion(7))
    ));
}

#[test]
fn rejects_bad_mime_list_pos() {
    let mut buf = good_header_bytes();
    buf[56..64].copy_from_slice(&81u64.to_le_bytes());
    assert!(matches!(
        Header::parse(&buf),
        Err(Error::InvalidHeader {
            field: "mime_list_pos",
            ..
        })
    ));
}

#[test]
fn main_page_absent_sentinel_is_none() {
    let mut buf = good_header_bytes();
    buf[64..68].copy_from_slice(&U32_ABSENT.to_le_bytes());
    let h = Header::parse(&buf).unwrap();
    assert_eq!(h.main_page, None);
}

#[test]
fn header_errors_carry_their_reason() {
    let mut buf = good_header_bytes();
    buf[56..64].copy_from_slice(&81u64.to_le_bytes());
    match Header::parse(&buf) {
        Err(Error::InvalidHeader { field, reason }) => {
            assert_eq!(field, "mime_list_pos");
            assert_eq!(reason, "expected 80, got 81");
        }
        other => panic!("unexpected: {other:?}"),
    }
}

#[test]
fn version_5_is_supported() {
    let mut buf = good_header_bytes();
    buf[4..6].copy_from_slice(&5u16.to_le_bytes());
    assert_eq!(Header::parse(&buf).unwrap().major_version, 5);
}

#[test]
fn header_parse_ignores_what_follows() {
    let mut buf = good_header_bytes();
    buf.extend_from_slice(&[0xEE; 100]);
    let h = Header::parse(&buf).unwrap();
    assert_eq!(h.entry_count, 42);
    assert_eq!(h.checksum_pos, 1024);
    assert_eq!(h.clone().title_ptr_pos, 400);
}

#[test]
fn uuid_is_written_in_five_groups() {
    let uuid = [
        0x01, 0x23, 0x45, 0x67, 0x89, 0xab, 0xcd, 0xef, 0x00, 0x10, 0x20, 0x30, 0x40, 0x50, 0x60,
        0xff,
    ];
    assert_eq!(format_uuid(&uuid), "01234567-89ab-cdef-0010-2030405060ff");
    assert_eq!(format_uuid(&[0; 16]), "00000000-0000-0000-0000-000000000000");
    assert_eq!(format_uuid(&uuid).len(), 36);
}
