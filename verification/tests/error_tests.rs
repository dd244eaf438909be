//! The descriptions of errors.
use zim_reader::Error;

#[test]
fn messages_of_all_errors() {
    let cases = [
        (Error::Io("no such file".to_string()), "I/O error: no such file"),
        (
            Error::InvalidMagic(0xBEEF),
            "Invalid magic number: expected 0x044D495A, got 0x0000BEEF",
        ),
        (
            Error::UnsupportedVersion(7),
            "Unsupported major version: 7 (supported: 5, 6)",
        ),
        (
            Error::TruncatedHeader(10),
            "Truncated header: file is too small (10 bytes)",
        ),
        (
            Error::InvalidHeader {
                field: "mime_list_pos",
                reason: "expected 80, got 81".to_string(),
            },
            "Invalid header field 'mime_list_pos': expected 80, got 81",
        ),
        (
            Error::OffsetOutOfBounds {
                offset: 1234,
                field: "path_ptr",
            },
            "Offset out of file bounds: offset 1234 in field 'path_ptr'",
        ),
        (
            Error::InvalidUtf8(99),
            "Invalid UTF-8 in string at offset 99",
        ),
        (
            Error::UnknownCompression(0x0A),
            "Unknown compression type: 0x0A",
        ),
        (
            Error::BlobOutOfRange {
                blob_number: 3,
                blob_count: 2,
            },
            "Blob 3 out of range (cluster has 2 blobs)",
        ),
        (
            Error::ExtendedClusterInV5,
            "Extended cluster encountered in v5 archive (illegal)",
        ),
        (
            Error::RedirectLoop(5),
            "Redirect loop detected at entry index 5",
        ),
        (
            Error::RedirectIndexOutOfRange(0xFFFF_FFFF),
            "Redirect target index 4294967295 is out of range",
        ),
        (
            Error::ChecksumMismatch {
                expected: "aa".to_string(),
                actual: "bb".to_string(),
            },
            "MD5 checksum mismatch: expected aa, got bb",
        ),
        (
            Error::LzmaDecompress("bad".to_string()),
            "LZMA2 decompression failed: bad",
        ),
        (
            Error::ZstdDecompress("bad".to_string()),
            "Zstandard decompression failed: bad",
        ),
        (
            Error::SplitArchiveNotSupported,
            "Split ZIM archives are not yet supported",
        ),
    ];
    for (error, text) in cases {
        assert_eq!(error.message(), text);
    }
}

#[test]
fn largest_numbers_are_written_in_full() {
    assert_eq!(
        Error::TruncatedHeader(u64::MAX).message(),
        "Truncated header: file is too small (18446744073709551615 bytes)"
    );
    assert_eq!(
        Error::TruncatedHeader(0).message(),
        "Truncated header: file is too small (0 bytes)"
    );
    assert_eq!(
        Error::InvalidMagic(0xFFFF_FFFF).message(),
        "Invalid magic number: expected 0x044D495A, got 0xFFFFFFFF"
    );
}
