//! Decoding of clusters.
use std::io::Write;
use xz2::write::XzEncoder;
use zim_reader::cluster::{
    decompress, extract_blob, lzma_result, zstd_result, ClusterInfo,
};
use zim_reader::xz::{decode_xz, has_overflowing_footer};
use zim_reader::Error;

/// Build a standard (u32-offset) uncompressed cluster payload from blobs.
/// Returns the bytes that would appear *after* the info byte.
fn build_cluster_payload_u32(blobs: &[&[u8]]) -> Vec<u8> {
    let n = blobs.len();
    let offset_size = 4usize;
    let mut out = Vec::new();
    let header_bytes = (n + 1) * offset_size;
    let mut running = header_bytes as u32;
    for b in blobs {
        out.extend_from_slice(&running.to_le_bytes());
        running += b.len() as u32;
    }
    out.extend_from_slice(&running.to_le_bytes()); // sentinel end
    for b in blobs {
        out.extend_from_slice(b);
    }
    out
}

/// Same as `build_cluster_payload_u32` but with u64 offsets (extended).
fn build_cluster_payload_u64(blobs: &[&[u8]]) -> Vec<u8> {
    let n = blobs.len();
    let offset_size = 8usize;
    let mut out = Vec::new();
    let header_bytes = (n + 1) * offset_size;
    let mut running = header_bytes as u64;
    for b in blobs {
        out.extend_from_slice(&running.to_le_bytes());
        running += b.len() as u64;
    }
    out.extend_from_slice(&running.to_le_bytes());
    for b in blobs {
        out.extend_from_slice(b);
    }
    out
}

#[test]
fn cluster_info_decodes_compression_and_extended_bits() {
    let a = ClusterInfo::from_byte(0x05, 6).unwrap();
    assert_eq!(a.compression, 0x05);
    assert!(!a.extended);

    let b = ClusterInfo::from_byte(0x14, 6).unwrap();
    assert_eq!(b.compression, 0x04);
    assert!(b.extended);

    // Reserved bits (0xE0) are ignored.
    let c = ClusterInfo::from_byte(0xE5, 6).unwrap();
    assert_eq!(c.compression, 0x05);
    assert!(!c.extended);
}

#[test]
fn cluster_info_rejects_extended_on_v5() {
    let err = ClusterInfo::from_byte(0x14, 5).unwrap_err();
    assert!(matches!(err, Error::ExtendedClusterInV5));
}

#[test]
fn decompress_uncompressed_round_trips() {
    for byte in [0x00u8, 0x01] {
        let info = ClusterInfo::from_byte(byte, 6).unwrap();
        let out = decompress(&info, b"raw bytes").unwrap();
        assert_eq!(out, b"raw bytes");
    }
}

#[test]
fn decompress_lzma2_round_trips() {
    let mut enc = XzEncoder::new(Vec::new(), 6);
    enc.write_all(b"hello LZMA world").unwrap();
    let compressed = enc.finish().unwrap();

    let info = ClusterInfo::from_byte(0x04, 6).unwrap();
    let out = decompress(&info, &compressed).unwrap();
    assert_eq!(out, b"hello LZMA world");
}

#[test]
fn decompress_zstd_round_trips() {
    let compressed = zstd::encode_all(&b"hello Zstd world"[..], 3).unwrap();
    let info = ClusterInfo::from_byte(0x05, 6).unwrap();
    let out = decompress(&info, &compressed).unwrap();
    assert_eq!(out, b"hello Zstd world");
}

#[test]
fn decompress_unknown_compression() {
    let info = ClusterInfo::from_byte(0x02, 6).unwrap();
    assert!(matches!(
        decompress(&info, &[]),
        Err(Error::UnknownCompression(0x02))
    ));
}

#[test]
fn extract_blob_standard_offsets() {
    let payload = build_cluster_payload_u32(&[b"aaaa", b"bbbbbb", b"c"]);
    assert_eq!(extract_blob(&payload, 0, false).unwrap(), b"aaaa");
    assert_eq!(extract_blob(&payload, 1, false).unwrap(), b"bbbbbb");
    assert_eq!(extract_blob(&payload, 2, false).unwrap(), b"c");
}

#[test]
fn extract_blob_extended_offsets() {
    let payload = build_cluster_payload_u64(&[b"xx", b"yyyy", b"zzz"]);
    assert_eq!(extract_blob(&payload, 0, true).unwrap(), b"xx");
    assert_eq!(extract_blob(&payload, 1, true).unwrap(), b"yyyy");
    assert_eq!(extract_blob(&payload, 2, true).unwrap(), b"zzz");
}

#[test]
fn extract_blob_out_of_range() {
    let payload = build_cluster_payload_u32(&[b"one", b"two"]);
    assert!(matches!(
        extract_blob(&payload, 2, false),
        Err(Error::BlobOutOfRange {
            blob_number: 2,
            blob_count: 2,
        })
    ));
}

#[test]
fn extract_blob_empty_blobs_ok() {
    // Edge case: blobs are allowed to be empty (zero-length slices).
    let payload = build_cluster_payload_u32(&[b"", b"x", b""]);
    assert_eq!(extract_blob(&payload, 0, false).unwrap(), b"");
    assert_eq!(extract_blob(&payload, 1, false).unwrap(), b"x");
    assert_eq!(extract_blob(&payload, 2, false).unwrap(), b"");
}

#[test]
fn decoder_failures_become_errors() {
    assert_eq!(lzma_result(Ok(vec![1, 2])).unwrap(), vec![1, 2]);
    assert_eq!(zstd_result(Ok(vec![3])).unwrap(), vec![3]);
    match lzma_result(Err("oops".to_string())) {
        Err(Error::LzmaDecompress(text)) => assert_eq!(text, "oops"),
        other => panic!("unexpected: {other:?}"),
    }
    match zstd_result(Err("oops".to_string())) {
        Err(Error::ZstdDecompress(text)) => assert_eq!(text, "oops"),
        other => panic!("unexpected: {other:?}"),
    }
}

#[test]
fn garbage_is_not_decompressed() {
    let lzma = ClusterInfo::from_byte(0x04, 6).unwrap();
    assert!(matches!(
        decompress(&lzma, b"not an xz stream"),
        Err(Error::LzmaDecompress(_))
    ));
    let zstd = ClusterInfo::from_byte(0x05, 6).unwrap();
    assert!(matches!(
        decompress(&zstd, b"not a zstd frame"),
        Err(Error::ZstdDecompress(_))
    ));
}

#[test]
fn truncated_streams_are_not_decompressed() {
    let mut enc = XzEncoder::new(Vec::new(), 6);
    enc.write_all(b"hello LZMA world").unwrap();
    let xz = enc.finish().unwrap();
    let lzma = ClusterInfo::from_byte(0x04, 6).unwrap();
    assert!(matches!(
        decompress(&lzma, &xz[..xz.len() / 2]),
        Err(Error::LzmaDecompress(_))
    ));
    let frame = zstd::encode_all(&b"hello Zstd world"[..], 3).unwrap();
    let zstd = ClusterInfo::from_byte(0x05, 6).unwrap();
    assert!(matches!(
        decompress(&zstd, &frame[..frame.len() - 4]),
        Err(Error::ZstdDecompress(_))
    ));
}

#[test]
fn all_other_compression_types_are_unknown() {
    for kind in [2u8, 3, 6, 7, 8, 9, 10, 11, 12, 13, 14, 15] {
        let info = ClusterInfo {
            compression: kind,
            extended: false,
        };
        match decompress(&info, b"x") {
            Err(Error::UnknownCompression(found)) => assert_eq!(found, kind),
            other => panic!("unexpected: {other:?}"),
        }
    }
}

#[test]
fn extended_flag_is_only_rejected_in_version_5() {
    for byte in 0..=255u8 {
        let v5 = ClusterInfo::from_byte(byte, 5);
        let v6 = ClusterInfo::from_byte(byte, 6).unwrap();
        assert_eq!(v5.is_err(), byte & 0x10 != 0);
        assert_eq!(v6.extended, byte & 0x10 != 0);
        assert_eq!(v6.compression, byte & 0x0F);
    }
}

#[test]
fn extract_blob_rejects_bad_first_offsets() {
    for first in [0u32, 3, 5, 6] {
        let mut payload = first.to_le_bytes().to_vec();
        payload.extend_from_slice(&[0; 16]);
        match extract_blob(&payload, 0, false) {
            Err(Error::OffsetOutOfBounds { offset, field }) => {
                assert_eq!(offset, first as u64);
                assert_eq!(field, "cluster_first_offset");
            }
            other => panic!("unexpected: {other:?}"),
        }
    }
    // A single offset leaves no blob.
    assert!(matches!(
        extract_blob(&4u32.to_le_bytes(), 0, false),
        Err(Error::BlobOutOfRange { blob_number: 0, blob_count: 0 })
    ));
}

#[test]
fn extract_blob_rejects_bad_ends() {
    let mut past = Vec::new();
    past.extend_from_slice(&8u32.to_le_bytes());
    past.extend_from_slice(&99u32.to_le_bytes());
    past.extend_from_slice(b"abc");
    assert!(matches!(
        extract_blob(&past, 0, false),
        Err(Error::OffsetOutOfBounds { offset: 99, field: "blob_end" })
    ));
    let mut reversed = Vec::new();
    reversed.extend_from_slice(&8u32.to_le_bytes());
    reversed.extend_from_slice(&7u32.to_le_bytes());
    reversed.extend_from_slice(b"abc");
    assert!(matches!(
        extract_blob(&reversed, 0, false),
        Err(Error::OffsetOutOfBounds { offset: 7, field: "blob_end" })
    ));
    let huge = u64::MAX - 7;
    assert!(matches!(
        extract_blob(&huge.to_le_bytes(), 0, true),
        Err(Error::OffsetOutOfBounds { field: "cluster_offset", .. })
    ));
    assert!(matches!(
        extract_blob(&[1, 2], 0, false),
        Err(Error::OffsetOutOfBounds { offset: 0, field: "cluster_offset" })
    ));
}

#[test]
fn extract_blob_ignores_what_follows_the_last_blob() {
    let mut payload = build_cluster_payload_u32(&[b"one", b"two"]);
    payload.extend_from_slice(b"trailing");
    assert_eq!(extract_blob(&payload, 1, false).unwrap(), b"two");
}

fn crc32_of(bytes: &[u8]) -> u32 {
    let mut register = u32::MAX;
    for b in bytes {
        register ^= *b as u32;
        for _ in 0..8 {
            register = if register & 1 == 1 {
                (register >> 1) ^ 0xEDB8_8320
            } else {
                register >> 1
            };
        }
    }
    !register
}

/// An xz stream without blocks, up to the backward size of its footer.
fn empty_xz_stream(check: u8, backward_size: u32) -> Vec<u8> {
    let mut out = vec![0xFD, 0x37, 0x7A, 0x58, 0x5A, 0x00, 0x00, check];
    out.extend_from_slice(&crc32_of(&[0, check]).to_le_bytes());
    out.extend_from_slice(&[0, 0, 0, 0]);
    out.extend_from_slice(&crc32_of(&[0, 0, 0, 0]).to_le_bytes());
    out.extend_from_slice(&[1, 2, 3, 4]);
    out.extend_from_slice(&backward_size.to_le_bytes());
    out
}

/// A number in groups of seven bits.
fn multibyte(mut n: usize) -> Vec<u8> {
    let mut out = Vec::new();
    while n >= 0x80 {
        out.push((n % 0x80) as u8 + 0x80);
        n /= 0x80;
    }
    out.push(n as u8);
    out
}

/// An xz stream with one block without a check, which holds `content` as it is
/// from byte 27 on.
fn stored_xz_stream(content: &[u8]) -> Vec<u8> {
    let mut out = vec![0xFD, 0x37, 0x7A, 0x58, 0x5A, 0x00, 0x00, 0x00];
    out.extend_from_slice(&crc32_of(&[0, 0]).to_le_bytes());
    let header = [0x02, 0x00, 0x21, 0x01, 0x16, 0x00, 0x00, 0x00];
    out.extend_from_slice(&header);
    out.extend_from_slice(&crc32_of(&header).to_le_bytes());
    out.push(0x01);
    out.extend_from_slice(&(content.len() as u16 - 1).to_be_bytes());
    out.extend_from_slice(content);
    out.push(0x00);
    let unpadded = out.len() - 12;
    while out.len() % 4 != 0 {
        out.push(0);
    }
    let mut index = vec![0x00, 0x01];
    index.extend_from_slice(&multibyte(unpadded));
    index.extend_from_slice(&multibyte(content.len()));
    while index.len() % 4 != 0 {
        index.push(0);
    }
    out.extend_from_slice(&index);
    out.extend_from_slice(&crc32_of(&index).to_le_bytes());
    let mut footer = (index.len() as u32 / 4).to_le_bytes().to_vec();
    footer.extend_from_slice(&[0, 0]);
    out.extend_from_slice(&crc32_of(&footer).to_le_bytes());
    out.extend_from_slice(&footer);
    out.extend_from_slice(b"YZ");
    out
}

/// What decompressing an LZMA2 payload reports.
fn lzma_error(data: &[u8]) -> String {
    let info = ClusterInfo::from_byte(0x04, 6).unwrap();
    match decompress(&info, data) {
        Err(Error::LzmaDecompress(text)) => text,
        other => panic!("unexpected: {other:?}"),
    }
}

#[test]
fn largest_backward_size_is_an_error() {
    assert_eq!(crc32_of(b"123456789"), 0xCBF4_3926);
    // No check, CRC-32, CRC-64 and SHA-256.
    for check in [0x00, 0x01, 0x04, 0x0A] {
        let stream = empty_xz_stream(check, u32::MAX);
        assert_eq!(stream.len(), 28);
        assert!(has_overflowing_footer(&stream));
        let mut longer = stream.clone();
        longer.extend_from_slice(&[0xAA; 9]);
        for data in [stream, longer] {
            assert_eq!(
                lzma_error(&data),
                "xz error: Invalid index size: expected 0 but got 8"
            );
        }
    }
}

#[test]
fn largest_backward_size_behind_blocks_is_an_error() {
    let mut enc = XzEncoder::new(Vec::new(), 6);
    enc.write_all(&b"some text, ".repeat(100)).unwrap();
    for stream in [enc.finish().unwrap(), stored_xz_stream(&[7; 100])] {
        assert!(!has_overflowing_footer(&stream));
        let at = stream.len() - 8;
        let index_size = 4 * (stream[at] as usize + 1);
        let mut broken = stream.clone();
        broken[at..at + 4].copy_from_slice(&[0xFF; 4]);
        assert!(has_overflowing_footer(&broken));
        assert_eq!(
            lzma_error(&broken),
            format!("xz error: Invalid index size: expected 0 but got {index_size}")
        );
        // One word further there is no backward size.
        let mut other = stream.clone();
        other[at + 4..].copy_from_slice(&[0xFF; 4]);
        assert!(!has_overflowing_footer(&other));
        assert!(lzma_error(&other).starts_with("xz error: "));
    }
}

#[test]
fn errors_before_the_backward_size_come_first() {
    // Another magic number.
    let mut stream = empty_xz_stream(0, u32::MAX);
    stream[0] = 0xFC;
    assert!(lzma_error(&stream).contains("magic"));
    // An index with another checksum.
    let mut stream = empty_xz_stream(0, u32::MAX);
    stream[16] ^= 1;
    assert!(lzma_error(&stream).contains("Invalid index CRC32"));
}

#[test]
fn other_footers_are_left_to_the_decoder() {
    for (size, expected) in [(0, 4), (2, 12), (0x3FFF_FFFF, 0), (u32::MAX - 1, 0xFFFF_FFFCu32)] {
        let stream = empty_xz_stream(0, size);
        assert!(!has_overflowing_footer(&stream));
        assert_eq!(
            lzma_error(&stream),
            format!("xz error: Invalid index size: expected {expected} but got 8")
        );
    }
    // The right size, after which the stream ends.
    let stream = empty_xz_stream(0, 1);
    assert!(!lzma_error(&stream).contains("Invalid index size"));
    assert!(!has_overflowing_footer(&[]));
    assert!(!has_overflowing_footer(&[0xFF; 100]));
    assert!(!has_overflowing_footer(&[0; 100]));
}

#[test]
fn content_that_looks_like_a_footer_is_content() {
    let info = ClusterInfo::from_byte(0x04, 6).unwrap();
    let mut lookalike = vec![0, 0, 0, 0];
    lookalike.extend_from_slice(&crc32_of(&[0, 0, 0, 0]).to_le_bytes());
    assert_eq!(lookalike, [0x00, 0x00, 0x00, 0x00, 0x1C, 0xDF, 0x44, 0x21]);
    lookalike.extend_from_slice(&[9, 9, 9, 9, 0xFF, 0xFF, 0xFF, 0xFF]);
    // One byte brings it to a multiple of four, from byte 27 on.
    let mut content = vec![b'x'];
    content.extend_from_slice(&lookalike);
    content.extend_from_slice(b"and the rest");
    let stream = stored_xz_stream(&content);
    assert_eq!(&stream[28..44], &lookalike[..]);
    assert!(!has_overflowing_footer(&stream));
    assert_eq!(decompress(&info, &stream).unwrap(), content);
    assert_eq!(decode_xz(&stream), Ok(content));
    // A whole stream with such a footer inside another, at each alignment.
    for shift in 0..4 {
        let mut content = vec![b'x'; shift];
        for _ in 0..1000 {
            content.extend_from_slice(&empty_xz_stream(0, u32::MAX));
        }
        let stream = stored_xz_stream(&content);
        assert!(decompress(&info, &stream).unwrap() == content);
    }
}

#[test]
fn dense_blocks_are_decoded() {
    let info = ClusterInfo::from_byte(0x05, 6).unwrap();
    // A raw block, and one of 32760 sequences that copy three bytes each from
    // 65533 bytes before.
    let mut expected = Vec::new();
    for i in 0..131_072u32 {
        expected.push((i.wrapping_mul(2_654_435_761) >> 24) as u8);
    }
    let mut frame = vec![0x28, 0xB5, 0x2F, 0xFD, 0x00, 0x58, 0x00, 0x00, 0x10];
    frame.extend_from_slice(&expected);
    frame.extend_from_slice(&[0xCD, 0xFF, 0x07]);
    frame.extend_from_slice(&[0x00, 0xFF, 0xF8, 0x00, 0x54, 0x00, 0x10, 0x00]);
    frame.extend_from_slice(&vec![0u8; 65_520]);
    frame.push(0x01);
    for _ in 0..98_280 {
        expected.push(expected[expected.len() - 65_533]);
    }
    let bytes = decompress(&info, &frame).unwrap();
    assert_eq!(bytes.len(), 229_352);
    assert!(bytes == expected);
}

#[test]
fn blocks_that_expand_too_far_are_an_error() {
    let info = ClusterInfo::from_byte(0x05, 6).unwrap();
    // A raw block, and one of 33000 sequences that copy 131074 bytes each.
    let mut frame = vec![0x28, 0xB5, 0x2F, 0xFD, 0x00, 0x58, 16 << 3, 0x00, 0x00];
    frame.extend_from_slice(&[7; 16]);
    let header = 1 | (2 << 1) | (66_009u32 << 3);
    frame.extend_from_slice(&header.to_le_bytes()[..3]);
    frame.extend_from_slice(&[0x00, 0xFF, 0xE8, 0x01, 0x54, 0x00, 0x00, 0x34]);
    frame.extend_from_slice(&vec![0xFFu8; 66_000]);
    frame.push(0x01);
    assert!(matches!(
        decompress(&info, &frame),
        Err(Error::ZstdDecompress(_))
    ));
}

#[test]
fn large_windows_are_accepted() {
    let info = ClusterInfo::from_byte(0x05, 6).unwrap();
    // 128 MiB, 256 MiB and 4 GiB.
    for window in [0x88, 0x90, 0xB0] {
        let mut frame = vec![0x28, 0xB5, 0x2F, 0xFD, 0x00, window];
        frame.extend_from_slice(&[1 | (3 << 3), 0, 0, b'a', b'b', b'c']);
        assert_eq!(decompress(&info, &frame).unwrap(), b"abc");
    }
}

#[test]
fn large_payloads_round_trip() {
    let mut state = 1u32;
    let mut noise = Vec::new();
    for i in 0..60_000u32 {
        state = state.wrapping_mul(1_664_525).wrapping_add(1_013_904_223);
        let word = if i % 50 == 0 { u32::MAX } else { state };
        noise.extend_from_slice(&word.to_le_bytes());
    }
    let text = b"offline content for wiki-style corpora, ".repeat(20_000);
    for payload in [noise, text] {
        let mut enc = XzEncoder::new(Vec::new(), 6);
        enc.write_all(&payload).unwrap();
        let xz = enc.finish().unwrap();
        let lzma = ClusterInfo::from_byte(0x04, 6).unwrap();
        assert!(decompress(&lzma, &xz).unwrap() == payload);
        for level in [1, 19] {
            let frame = zstd::encode_all(&payload[..], level).unwrap();
            let zstd = ClusterInfo::from_byte(0x05, 6).unwrap();
            assert!(decompress(&zstd, &frame).unwrap() == payload);
        }
    }
}
