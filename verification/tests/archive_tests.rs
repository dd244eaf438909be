//! Opening of archives.
use zim_reader::archive::validate_offsets;
use zim_reader::header::{HEADER_SIZE, ZIM_MAGIC};
use zim_reader::split::{is_split_archive_path, is_split_extension};
use zim_reader::{Archive, ArchiveOptions, Error, Header, NamespaceMode, VerifyChecksum};

/// Build a synthetic, well-formed minimal ZIM file. Content after the
/// MIME list is just padding; it's sized so that `checksum_pos + 16
/// == file length`.
fn build_minimal_zim(major: u16, minor: u16) -> Vec<u8> {
    let mime_entries: [&[u8]; 2] = [b"text/html\0", b"image/png\0"];
    let mime_list_len: usize = mime_entries.iter().map(|s| s.len()).sum::<usize>() + 1; // +1 terminator
    let body_start = HEADER_SIZE + mime_list_len;

    // Place pointer lists and clusters immediately after the mime list.
    // Opening does not read them: they only need in-bounds offsets.
    let path_ptr_pos = body_start as u64;
    let title_ptr_pos = (body_start + 16) as u64;
    let cluster_ptr_pos = (body_start + 32) as u64;
    let padding_end = body_start + 64;
    let checksum_pos = padding_end as u64;
    let file_len = padding_end + 16;

    let mut buf = Vec::with_capacity(file_len);
    buf.extend_from_slice(&ZIM_MAGIC.to_le_bytes());
    buf.extend_from_slice(&major.to_le_bytes());
    buf.extend_from_slice(&minor.to_le_bytes());
    buf.extend_from_slice(&[0x11; 16]); // uuid
    buf.extend_from_slice(&0u32.to_le_bytes()); // entry_count
    buf.extend_from_slice(&0u32.to_le_bytes()); // cluster_count
    buf.extend_from_slice(&path_ptr_pos.to_le_bytes());
    buf.extend_from_slice(&title_ptr_pos.to_le_bytes());
    buf.extend_from_slice(&cluster_ptr_pos.to_le_bytes());
    buf.extend_from_slice(&80u64.to_le_bytes()); // mime_list_pos
    buf.extend_from_slice(&0xFFFF_FFFFu32.to_le_bytes()); // main_page absent
    buf.extend_from_slice(&0xFFFF_FFFFu32.to_le_bytes()); // layout_page absent
    buf.extend_from_slice(&checksum_pos.to_le_bytes());
    assert_eq!(buf.len(), HEADER_SIZE);

    for entry in mime_entries {
        buf.extend_from_slice(entry);
    }
    buf.push(0); // MIME list terminator

    buf.resize(padding_end, 0); // placeholder body
    buf.extend_from_slice(&[0u8; 16]); // checksum placeholder
    assert_eq!(buf.len(), file_len);
    buf
}

#[test]
fn open_happy_path_v6_1() {
    let bytes = build_minimal_zim(6, 1);
    let a = match Archive::open("minimal.zim", &bytes) {
        Ok(a) => a,
        Err(e) => panic!("open: {e:?}"),
    };
    assert_eq!(a.header().major_version, 6);
    assert_eq!(a.header().minor_version, 1);
    assert_eq!(a.namespace_mode(), NamespaceMode::New);
    assert_eq!(
        a.mime_types(),
        &["text/html".to_string(), "image/png".to_string()]
    );
    assert_eq!(a.entry_count(), 0);
    assert_eq!(a.cluster_count(), 0);
    assert_eq!(a.path(), "minimal.zim");
    assert_eq!(a.mmap_len(), bytes.len());
}

#[test]
fn open_happy_path_v5_is_legacy() {
    let bytes = build_minimal_zim(5, 0);
    let a = match Archive::open("minimal.zim", &bytes) {
        Ok(a) => a,
        Err(e) => panic!("open: {e:?}"),
    };
    assert_eq!(a.namespace_mode(), NamespaceMode::Legacy);
}

#[test]
fn open_rejects_bad_magic() {
    let mut bytes = build_minimal_zim(6, 1);
    bytes[0..4].copy_from_slice(&0u32.to_le_bytes());
    assert!(matches!(
        Archive::open("minimal.zim", &bytes),
        Err(Error::InvalidMagic(_))
    ));
}

#[test]
fn open_rejects_truncated_file() {
    assert!(matches!(
        Archive::open("minimal.zim", &[0u8; 10]),
        Err(Error::TruncatedHeader(10))
    ));
}

#[test]
fn open_rejects_checksum_pos_mismatch() {
    let mut bytes = build_minimal_zim(6, 1);
    // Shift checksum_pos by 1 so the invariant (checksum_pos + 16
    // == file_len) breaks.
    let mut cp = u64::from_le_bytes(bytes[72..80].try_into().unwrap());
    cp -= 1;
    bytes[72..80].copy_from_slice(&cp.to_le_bytes());
    assert!(matches!(
        Archive::open("minimal.zim", &bytes),
        Err(Error::InvalidHeader {
            field: "checksum_pos",
            ..
        })
    ));
}

#[test]
fn split_archive_is_rejected() {
    assert!(matches!(
        Archive::open("some/dir/wikipedia.zimaa", b"irrelevant"),
        Err(Error::SplitArchiveNotSupported)
    ));
}

#[test]
fn split_archive_detector() {
    assert!(is_split_archive_path("foo.zimaa"));
    assert!(is_split_archive_path("foo.zimzz"));
    assert!(!is_split_archive_path("foo.zim"));
    assert!(!is_split_archive_path("foo.zima"));
    assert!(!is_split_archive_path("foo.ZIMAA"));
    assert!(!is_split_archive_path("foo.zim00"));
}

#[test]
fn split_paths_go_by_the_extension_of_the_file_name() {
    assert!(is_split_archive_path("a.b/foo.bar.zimab"));
    assert!(!is_split_archive_path("zimaa"));
    assert!(!is_split_archive_path(".zimaa"));
    assert!(is_split_archive_path("..zimaa"));
    assert!(!is_split_archive_path("foo.zimaa/bar"));
    assert!(!is_split_archive_path("foo.zimaa/bar.zim"));
    assert!(!is_split_archive_path("foo.zimaa/.."));
    assert!(!is_split_archive_path(""));
    assert!(!is_split_archive_path("foo."));
    assert!(!is_split_archive_path("."));
    assert!(!is_split_archive_path("/"));
    assert!(is_split_archive_path("foo.zimaa/"));
    assert!(is_split_archive_path("foo.zimaa//"));
    assert!(is_split_archive_path("foo.zimaa/./."));
    assert!(!is_split_archive_path("foo.zimaa/../."));
    assert!(is_split_archive_path("/foo.zimaa"));
}

#[test]
fn file_names_decide_whatever_the_path() {
    let bytes = build_minimal_zim(6, 1);
    for path in [
        "/data/wiki:en.zim",
        "C:\\data\\wiki.zim",
        "//server/share/wiki.zim",
        "\\\\server\\share\\wiki.zim",
        "a:b.zimaa.zim",
        "wiki:en",
        "wiki:en.",
        "x:.zim",
    ] {
        assert!(!is_split_archive_path(path), "{path}");
        assert!(Archive::open(path, &bytes).is_ok(), "{path}");
    }
    for path in [
        "/data/wiki:en.zimaa",
        "C:\\data\\wiki.zimab",
        "C:wiki.zimab",
        "\\data\\wiki.zimzz",
        "a:b..zimaa",
    ] {
        assert!(is_split_archive_path(path), "{path}");
        assert!(matches!(
            Archive::open(path, &bytes),
            Err(Error::SplitArchiveNotSupported)
        ));
    }
}

#[test]
fn split_extension_is_five_ascii_letters() {
    assert!(is_split_extension("zimaa"));
    assert!(is_split_extension("zimzz"));
    assert!(!is_split_extension("zim"));
    assert!(!is_split_extension("zimaaa"));
    assert!(!is_split_extension("zima{"));
    assert!(!is_split_extension("zim`a"));
    assert!(!is_split_extension("zipaa"));
    // Five bytes, but four characters.
    assert!(!is_split_extension("zimé"));
}

#[test]
fn archives_can_be_shared_between_threads() {
    fn shareable<T: Send + Sync>() {}
    shareable::<Archive<'static>>();
}

#[test]
fn options_default_to_verification_and_eight_clusters() {
    let opts = ArchiveOptions::default();
    assert_eq!(opts.verify_checksum, VerifyChecksum::Yes);
    assert_eq!(opts.cluster_cache_size, 8);
    let copy = opts.clone();
    assert_eq!(copy.cluster_cache_size, 8);
}

#[test]
fn options_do_not_change_what_is_opened() {
    let bytes = build_minimal_zim(6, 1);
    let mut opts = ArchiveOptions::default();
    opts.verify_checksum = VerifyChecksum::Skip;
    assert!(Archive::open_with_options("minimal.zim", &bytes, opts).is_ok());
    assert!(Archive::open_unless_split("minimal.zim", &bytes, false).is_ok());
    assert!(matches!(
        Archive::open_unless_split("minimal.zim", &bytes, true),
        Err(Error::SplitArchiveNotSupported)
    ));
}

#[test]
fn open_keeps_the_bytes_and_the_uuid() {
    let bytes = build_minimal_zim(6, 1);
    let a = match Archive::open("x/minimal.zim", &bytes) {
        Ok(a) => a,
        Err(e) => panic!("open: {e:?}"),
    };
    assert_eq!(a.data(), &bytes[..]);
    assert_eq!(a.header().uuid, [0x11; 16]);
    assert_eq!(a.header().main_page, None);
    let header: Header = a.header().clone();
    assert_eq!(header.checksum_pos + 16, bytes.len() as u64);
}

#[test]
fn open_rejects_each_list_outside_the_file() {
    for (at, name) in [
        (32usize, "path_ptr_pos"),
        (40, "title_ptr_pos"),
        (48, "cluster_ptr_pos"),
        (72, "checksum_pos"),
    ] {
        let mut bytes = build_minimal_zim(6, 1);
        let len = bytes.len() as u64;
        bytes[at..at + 8].copy_from_slice(&len.to_le_bytes());
        match Archive::open("minimal.zim", &bytes) {
            Err(Error::OffsetOutOfBounds { offset, field }) => {
                assert_eq!(offset, len);
                assert_eq!(field, name);
            }
            Err(e) => panic!("unexpected error: {e:?}"),
            Ok(_) => panic!("opened with {name} out of bounds"),
        }
    }
}

#[test]
fn open_reports_the_lists_in_order() {
    let mut bytes = build_minimal_zim(6, 1);
    bytes[32..40].copy_from_slice(&u64::MAX.to_le_bytes());
    bytes[72..80].copy_from_slice(&u64::MAX.to_le_bytes());
    assert!(matches!(
        Archive::open("minimal.zim", &bytes),
        Err(Error::OffsetOutOfBounds {
            field: "path_ptr_pos",
            offset: u64::MAX,
        })
    ));
}

#[test]
fn open_rejects_a_mime_list_without_end() {
    let mut bytes = build_minimal_zim(6, 1);
    for b in bytes[80..].iter_mut() {
        *b = b'x';
    }
    assert!(matches!(
        Archive::open("minimal.zim", &bytes),
        Err(Error::OffsetOutOfBounds {
            offset: 80,
            field: "cstring (no null terminator)",
        })
    ));
}

#[test]
fn offsets_are_checked_against_the_length() {
    let bytes = build_minimal_zim(6, 1);
    let header = Header::parse(&bytes).unwrap();
    let len = bytes.len() as u64;
    assert!(validate_offsets(&header, len).is_ok());
    match validate_offsets(&header, len + 1) {
        Err(Error::InvalidHeader { field, reason }) => {
            assert_eq!(field, "checksum_pos");
            assert_eq!(
                reason,
                format!(
                    "expected checksum_pos + 16 == file length {}, got {}",
                    len + 1,
                    len
                )
            );
        }
        other => panic!("unexpected: {other:?}"),
    }
}

#[test]
fn checksum_position_near_the_largest_number_is_compared_exactly() {
    let bytes = build_minimal_zim(6, 1);
    let mut header = Header::parse(&bytes).unwrap();
    header.checksum_pos = u64::MAX - 1;
    match validate_offsets(&header, u64::MAX) {
        Err(Error::InvalidHeader { field, reason }) => {
            assert_eq!(field, "checksum_pos");
            assert_eq!(
                reason,
                "expected checksum_pos + 16 == file length 18446744073709551615, \
                 got 18446744073709551630"
            );
        }
        other => panic!("unexpected: {other:?}"),
    }
}
