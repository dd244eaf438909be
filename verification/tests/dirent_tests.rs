//! Parsing of directory entries.
use zim_reader::dirent::{
    path_offset_for, read_namespace, read_path_sort_key, read_title_sort_key, MIME_DELETED,
    MIME_LINKTARGET, MIME_REDIRECT,
};
use zim_reader::{Dirent, Error};

/// Encode a content entry into `buf`, returning its start offset.
fn write_content(
    buf: &mut Vec<u8>,
    mime: u16,
    namespace: char,
    revision: u32,
    cluster: u32,
    blob: u32,
    path: &str,
    title: &str,
) -> u64 {
    let start = buf.len() as u64;
    buf.extend_from_slice(&mime.to_le_bytes());
    buf.push(0); // parameter_len
    buf.push(namespace as u8);
    buf.extend_from_slice(&revision.to_le_bytes());
    buf.extend_from_slice(&cluster.to_le_bytes());
    buf.extend_from_slice(&blob.to_le_bytes());
    buf.extend_from_slice(path.as_bytes());
    buf.push(0);
    buf.extend_from_slice(title.as_bytes());
    buf.push(0);
    start
}

fn write_redirect(
    buf: &mut Vec<u8>,
    namespace: char,
    revision: u32,
    target_idx: u32,
    path: &str,
    title: &str,
) -> u64 {
    let start = buf.len() as u64;
    buf.extend_from_slice(&MIME_REDIRECT.to_le_bytes());
    buf.push(0); // parameter_len
    buf.push(namespace as u8);
    buf.extend_from_slice(&revision.to_le_bytes());
    buf.extend_from_slice(&target_idx.to_le_bytes());
    buf.extend_from_slice(path.as_bytes());
    buf.push(0);
    buf.extend_from_slice(title.as_bytes());
    buf.push(0);
    start
}

fn write_deprecated(buf: &mut Vec<u8>, mime: u16, namespace: char, path: &str) -> u64 {
    let start = buf.len() as u64;
    buf.extend_from_slice(&mime.to_le_bytes());
    buf.push(0);
    buf.push(namespace as u8);
    buf.extend_from_slice(&0u32.to_le_bytes()); // revision
    // Use content layout; ZIM stores deprecated entries with the same
    // shape, differing only in mime_type_idx.
    buf.extend_from_slice(&0u32.to_le_bytes()); // cluster
    buf.extend_from_slice(&0u32.to_le_bytes()); // blob
    buf.extend_from_slice(path.as_bytes());
    buf.push(0);
    buf.push(0); // empty title
    start
}

#[test]
fn parses_content_entry() {
    let mut buf = Vec::new();
    let off = write_content(&mut buf, 0, 'C', 1, 5, 2, "Main_Page", "Main Page");
    let d = Dirent::parse_at(&buf, off, 4).unwrap().unwrap();
    match d {
        Dirent::Content(c) => {
            assert_eq!(c.mime_type_idx, 0);
            assert_eq!(c.namespace, 'C');
            assert_eq!(c.revision, 1);
            assert_eq!(c.cluster_number, 5);
            assert_eq!(c.blob_number, 2);
            assert_eq!(c.path, "Main_Page");
            assert_eq!(c.title, "Main Page");
        }
        other => panic!("expected Content, got {other:?}"),
    }
}

#[test]
fn empty_title_falls_back_to_path() {
    let mut buf = Vec::new();
    let off = write_content(&mut buf, 0, 'C', 0, 0, 0, "article", "");
    let d = Dirent::parse_at(&buf, off, 1).unwrap().unwrap();
    assert_eq!(d.title(), "article");
    assert_eq!(d.path(), "article");
}

#[test]
fn parses_redirect_entry() {
    let mut buf = Vec::new();
    let off = write_redirect(&mut buf, 'C', 0, 42, "Old_Name", "");
    let d = Dirent::parse_at(&buf, off, 1).unwrap().unwrap();
    match d {
        Dirent::Redirect(r) => {
            assert_eq!(r.namespace, 'C');
            assert_eq!(r.redirect_index, 42);
            assert_eq!(r.path, "Old_Name");
            assert_eq!(r.title, "Old_Name"); // empty title fell back
        }
        other => panic!("expected Redirect, got {other:?}"),
    }
}

#[test]
fn deprecated_entries_return_none() {
    let mut buf = Vec::new();
    let off1 = write_deprecated(&mut buf, MIME_LINKTARGET, 'C', "gone");
    let off2 = write_deprecated(&mut buf, MIME_DELETED, 'C', "gone2");
    assert!(Dirent::parse_at(&buf, off1, 1).unwrap().is_none());
    assert!(Dirent::parse_at(&buf, off2, 1).unwrap().is_none());
}

#[test]
fn mime_index_out_of_range() {
    let mut buf = Vec::new();
    let off = write_content(&mut buf, 5, 'C', 0, 0, 0, "foo", "");
    let err = Dirent::parse_at(&buf, off, 3).unwrap_err();
    assert!(matches!(
        err,
        Error::InvalidHeader {
            field: "dirent.mime_type_idx",
            ..
        }
    ));
}

#[test]
fn non_graphic_namespace_rejected() {
    let mut buf = Vec::new();
    let off = write_content(&mut buf, 0, '\0', 0, 0, 0, "foo", "");
    // Overwrite namespace byte with 0x00 directly (write_content used '\0' so this is already 0).
    let err = Dirent::parse_at(&buf, off, 1).unwrap_err();
    assert!(matches!(
        err,
        Error::InvalidHeader {
            field: "dirent.namespace",
            ..
        }
    ));
}

#[test]
fn multibyte_utf8_in_path_and_title() {
    let mut buf = Vec::new();
    let off = write_content(&mut buf, 0, 'C', 0, 0, 0, "café", "Café 🎉");
    let d = Dirent::parse_at(&buf, off, 1).unwrap().unwrap();
    assert_eq!(d.path(), "café");
    assert_eq!(d.title(), "Café 🎉");
}

#[test]
fn parameter_len_nonzero_does_not_affect_parse() {
    let mut buf = Vec::new();
    let start = buf.len() as u64;
    buf.extend_from_slice(&0u16.to_le_bytes()); // mime
    buf.push(4); // parameter_len = 4 (we don't read past title, so ignored)
    buf.push(b'C');
    buf.extend_from_slice(&0u32.to_le_bytes()); // revision
    buf.extend_from_slice(&0u32.to_le_bytes()); // cluster
    buf.extend_from_slice(&0u32.to_le_bytes()); // blob
    buf.extend_from_slice(b"p\0");
    buf.extend_from_slice(b"t\0");
    let d = Dirent::parse_at(&buf, start, 1).unwrap().unwrap();
    assert_eq!(d.path(), "p");
    assert_eq!(d.title(), "t");
}

#[test]
fn sort_key_helpers_match_full_parse() {
    let mut buf = Vec::new();
    let c = write_content(&mut buf, 0, 'C', 0, 0, 0, "Apple", "Apple pie");
    let r = write_redirect(&mut buf, 'C', 0, 0, "Zebra", "");
    let dep = write_deprecated(&mut buf, MIME_LINKTARGET, 'C', "Mango");

    assert_eq!(read_path_sort_key(&buf, c).unwrap(), ('C', "Apple".into()));
    assert_eq!(read_path_sort_key(&buf, r).unwrap(), ('C', "Zebra".into()));
    assert_eq!(
        read_path_sort_key(&buf, dep).unwrap(),
        ('C', "Mango".into())
    );

    assert_eq!(
        read_title_sort_key(&buf, c).unwrap(),
        ('C', "Apple pie".into())
    );
    // empty title → falls back to path
    assert_eq!(read_title_sort_key(&buf, r).unwrap(), ('C', "Zebra".into()));
    assert_eq!(
        read_title_sort_key(&buf, dep).unwrap(),
        ('C', "Mango".into())
    );
}

#[test]
fn dirent_errors_carry_their_reason() {
    let mut buf = Vec::new();
    let off = write_content(&mut buf, 5, 'C', 0, 0, 0, "foo", "");
    match Dirent::parse_at(&buf, off, 3) {
        Err(Error::InvalidHeader { reason, .. }) => {
            assert_eq!(reason, "mime index 5 out of range (archive has 3 types)")
        }
        other => panic!("unexpected: {other:?}"),
    }
    buf[3] = 0x1F;
    match Dirent::parse_at(&buf, off, 9) {
        Err(Error::InvalidHeader { reason, .. }) => {
            assert_eq!(reason, "non-graphic ASCII byte 0x1F")
        }
        other => panic!("unexpected: {other:?}"),
    }
}

#[test]
fn truncated_dirents_name_the_missing_field() {
    let mut buf = Vec::new();
    let off = write_content(&mut buf, 0, 'C', 0, 7, 8, "ab", "cd");
    for (len, name) in [
        (1usize, "mime_type_idx"),
        (3, "dirent.namespace"),
        (7, "revision"),
        (11, "cluster_number"),
        (15, "blob_number"),
        (18, "cstring (no null terminator)"),
        (21, "cstring (no null terminator)"),
    ] {
        match Dirent::parse_at(&buf[..len], off, 1) {
            Err(Error::OffsetOutOfBounds { field, .. }) => assert_eq!(field, name),
            other => panic!("unexpected: {other:?}"),
        }
    }
    let mut buf = Vec::new();
    let off = write_redirect(&mut buf, 'C', 0, 1, "ab", "");
    match Dirent::parse_at(&buf[..11], off, 1) {
        Err(Error::OffsetOutOfBounds { field, offset }) => {
            assert_eq!(field, "redirect_index");
            assert_eq!(offset, 8);
        }
        other => panic!("unexpected: {other:?}"),
    }
}

#[test]
fn dirent_offsets_past_the_end_are_out_of_bounds() {
    assert!(matches!(
        Dirent::parse_at(&[0u8; 32], u64::MAX, 1),
        Err(Error::OffsetOutOfBounds { field: "mime_type_idx", .. })
    ));
    assert!(matches!(
        read_path_sort_key(&[0u8; 32], u64::MAX),
        Err(Error::OffsetOutOfBounds { .. })
    ));
    assert!(matches!(
        read_title_sort_key(&[], 0),
        Err(Error::OffsetOutOfBounds { .. })
    ));
}

#[test]
fn namespace_bytes_are_visible_ascii() {
    let buf = [0x20u8, 0x21, b'-', 0x7E, 0x7F, 0x80];
    assert!(read_namespace(&buf, 0).is_err());
    assert_eq!(read_namespace(&buf, 1).unwrap(), '!');
    assert_eq!(read_namespace(&buf, 2).unwrap(), '-');
    assert_eq!(read_namespace(&buf, 3).unwrap(), '~');
    assert!(read_namespace(&buf, 4).is_err());
    assert!(read_namespace(&buf, 5).is_err());
    assert!(matches!(
        read_namespace(&buf, 6),
        Err(Error::OffsetOutOfBounds { offset: 6, field: "dirent.namespace" })
    ));
}

#[test]
fn paths_of_redirects_start_earlier() {
    assert_eq!(path_offset_for(MIME_REDIRECT), 12);
    assert_eq!(path_offset_for(0), 16);
    assert_eq!(path_offset_for(MIME_DELETED), 16);
}

#[test]
fn clones_of_entries_are_equal() {
    let mut buf = Vec::new();
    let c = write_content(&mut buf, 0, 'C', 9, 5, 2, "Main_Page", "Main Page");
    let r = write_redirect(&mut buf, 'A', 3, 42, "Old_Name", "Old");
    for off in [c, r] {
        let d = Dirent::parse_at(&buf, off, 1).unwrap().unwrap();
        assert_eq!(format!("{:?}", d.clone()), format!("{d:?}"));
    }
}
