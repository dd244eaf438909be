//! Reading of the pointer lists.
use zim_reader::pointer_list::{cluster_ptr, path_ptr, title_ptr};
use zim_reader::Error;

#[test]
fn path_ptr_reads_correct_offset() {
    let mut buf = vec![0xAA; 16];
    buf.extend_from_slice(&100u64.to_le_bytes());
    buf.extend_from_slice(&200u64.to_le_bytes());
    buf.extend_from_slice(&300u64.to_le_bytes());
    assert_eq!(path_ptr(&buf, 16, 0).unwrap(), 100);
    assert_eq!(path_ptr(&buf, 16, 1).unwrap(), 200);
    assert_eq!(path_ptr(&buf, 16, 2).unwrap(), 300);
}

#[test]
fn path_ptr_out_of_bounds() {
    let buf = vec![0u8; 16];
    assert!(matches!(
        path_ptr(&buf, 16, 0),
        Err(Error::OffsetOutOfBounds { .. })
    ));
}

#[test]
fn title_ptr_reads_correct_offset() {
    let mut buf = vec![0xFF; 4];
    buf.extend_from_slice(&7u32.to_le_bytes());
    buf.extend_from_slice(&3u32.to_le_bytes());
    buf.extend_from_slice(&42u32.to_le_bytes());
    assert_eq!(title_ptr(&buf, 4, 0).unwrap(), 7);
    assert_eq!(title_ptr(&buf, 4, 1).unwrap(), 3);
    assert_eq!(title_ptr(&buf, 4, 2).unwrap(), 42);
}

#[test]
fn title_ptr_out_of_bounds() {
    let buf = vec![0u8; 4];
    assert!(matches!(
        title_ptr(&buf, 4, 0),
        Err(Error::OffsetOutOfBounds { .. })
    ));
}

#[test]
fn cluster_ptr_reads_correct_offset() {
    let mut buf = vec![0xAA; 8];
    buf.extend_from_slice(&500u64.to_le_bytes());
    buf.extend_from_slice(&600u64.to_le_bytes());
    assert_eq!(cluster_ptr(&buf, 8, 0).unwrap(), 500);
    assert_eq!(cluster_ptr(&buf, 8, 1).unwrap(), 600);
    assert!(matches!(
        cluster_ptr(&buf, 8, 2),
        Err(Error::OffsetOutOfBounds {
            offset: 24,
            field: "cluster_ptr",
        })
    ));
}

#[test]
fn pointers_past_the_largest_address_are_out_of_bounds() {
    let buf = vec![0u8; 16];
    assert!(matches!(
        path_ptr(&buf, u64::MAX, u32::MAX),
        Err(Error::OffsetOutOfBounds { field: "path_ptr", .. })
    ));
    assert!(matches!(
        title_ptr(&buf, u64::MAX - 3, 1),
        Err(Error::OffsetOutOfBounds { field: "title_ptr", .. })
    ));
}
