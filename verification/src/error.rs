//! The errors of the library.
use vstd::prelude::*;
use vstd::string::*;

use crate::text::{push_decimal, push_upper_hex};

verus! {

/// Errors returned by the library.
///
/// Variants cover I/O failures, malformed headers or directory entries,
/// out-of-range offsets, decompression errors, and checksum mismatch.
/// [`Error::message`] gives the user-facing description of each.
#[non_exhaustive]
#[derive(Debug)]
pub enum Error {
    /// Reading the archive failed; carries the description of the failure.
    Io(String),
    /// The file does not start with the ZIM magic number.
    InvalidMagic(u32),
    /// The major version is neither 5 nor 6.
    UnsupportedVersion(u16),
    /// The file is shorter than a header; carries its length.
    TruncatedHeader(u64),
    /// A field of the header or of a directory entry has an impossible value.
    InvalidHeader { field: &'static str, reason: String },
    /// A read at `offset` would leave the available bytes.
    OffsetOutOfBounds { offset: u64, field: &'static str },
    /// The string at this offset is not UTF-8.
    InvalidUtf8(u64),
    /// The compression type of a cluster is unknown.
    UnknownCompression(u8),
    /// The cluster has no blob of this number.
    BlobOutOfRange { blob_number: u32, blob_count: usize },
    /// A version 5 archive holds a cluster with the extended flag.
    ExtendedClusterInV5,
    /// Following redirects came back to, or went too far at, this entry.
    RedirectLoop(u32),
    /// A redirect names an entry that does not exist.
    RedirectIndexOutOfRange(u32),
    /// The stored checksum is not that of the archive.
    ChecksumMismatch { expected: String, actual: String },
    /// LZMA2 decompression failed; carries the decoder's description.
    LzmaDecompress(String),
    /// Zstandard decompression failed; carries the decoder's description.
    ZstdDecompress(String),
    /// The path names one part of a split archive.
    SplitArchiveNotSupported,
}

/// What an [`Error`] says, with its strings as character sequences and its
/// numbers as integers.
pub enum ErrorView {
    Io(Seq<char>),
    InvalidMagic(int),
    UnsupportedVersion(int),
    TruncatedHeader(int),
    InvalidHeader { field: Seq<char>, reason: Seq<char> },
    OffsetOutOfBounds { offset: int, field: Seq<char> },
    InvalidUtf8(int),
    UnknownCompression(int),
    BlobOutOfRange { blob_number: int, blob_count: int },
    ExtendedClusterInV5,
    RedirectLoop(int),
    RedirectIndexOutOfRange(int),
    ChecksumMismatch { expected: Seq<char>, actual: Seq<char> },
    LzmaDecompress(Seq<char>),
    ZstdDecompress(Seq<char>),
    SplitArchiveNotSupported,
}

impl View for Error {
    type V = ErrorView;

    open spec fn view(&self) -> ErrorView {
        match *self {
            Error::Io(text) => ErrorView::Io(text@),
            Error::InvalidMagic(magic) => ErrorView::InvalidMagic(magic as int),
            Error::UnsupportedVersion(version) => ErrorView::UnsupportedVersion(version as int),
            Error::TruncatedHeader(len) => ErrorView::TruncatedHeader(len as int),
            Error::InvalidHeader { field, reason } => ErrorView::InvalidHeader {
                field: field@,
                reason: reason@,
            },
            Error::OffsetOutOfBounds { offset, field } => ErrorView::OffsetOutOfBounds {
                offset: offset as int,
                field: field@,
            },
            Error::InvalidUtf8(offset) => ErrorView::InvalidUtf8(offset as int),
            Error::UnknownCompression(kind) => ErrorView::UnknownCompression(kind as int),
            Error::BlobOutOfRange { blob_number, blob_count } => ErrorView::BlobOutOfRange {
                blob_number: blob_number as int,
                blob_count: blob_count as int,
            },
            Error::ExtendedClusterInV5 => ErrorView::ExtendedClusterInV5,
            Error::RedirectLoop(idx) => ErrorView::RedirectLoop(idx as int),
            Error::RedirectIndexOutOfRange(idx) => ErrorView::RedirectIndexOutOfRange(idx as int),
            Error::ChecksumMismatch { expected, actual } => ErrorView::ChecksumMismatch {
                expected: expected@,
                actual: actual@,
            },
            Error::LzmaDecompress(text) => ErrorView::LzmaDecompress(text@),
            Error::ZstdDecompress(text) => ErrorView::ZstdDecompress(text@),
            Error::SplitArchiveNotSupported => ErrorView::SplitArchiveNotSupported,
        }
    }
}

/// What a result says: the contents of the value, or of the error.
pub open spec fn outcome<T: DeepView>(result: Result<T, Error>) -> Result<T::V, ErrorView> {
    match result {
        Ok(value) => Ok(value.deep_view()),
        Err(error) => Err(error@),
    }
}

impl ErrorView {
    /// The user-facing description of the error.
    pub open spec fn message(self) -> Seq<char> {
        match self {
            ErrorView::Io(text) => "I/O error: "@ + text,
            ErrorView::InvalidMagic(magic) => {
                "Invalid magic number: expected 0x044D495A, got 0x"@ + crate::text::upper_hex(
                    magic as nat,
                    8,
                )
            },
            ErrorView::UnsupportedVersion(version) => {
                "Unsupported major version: "@ + crate::text::decimal(version as nat)
                    + " (supported: 5, 6)"@
            },
            ErrorView::TruncatedHeader(len) => {
                "Truncated header: file is too small ("@ + crate::text::decimal(len as nat)
                    + " bytes)"@
            },
            ErrorView::InvalidHeader { field, reason } => {
                "Invalid header field '"@ + field + "': "@ + reason
            },
            ErrorView::OffsetOutOfBounds { offset, field } => {
                "Offset out of file bounds: offset "@ + crate::text::decimal(offset as nat)
                    + " in field '"@ + field + "'"@
            },
            ErrorView::InvalidUtf8(offset) => {
                "Invalid UTF-8 in string at offset "@ + crate::text::decimal(offset as nat)
            },
            ErrorView::UnknownCompression(kind) => {
                "Unknown compression type: 0x"@ + crate::text::upper_hex(kind as nat, 2)
            },
            ErrorView::BlobOutOfRange { blob_number, blob_count } => {
                "Blob "@ + crate::text::decimal(blob_number as nat)
                    + " out of range (cluster has "@ + crate::text::decimal(blob_count as nat)
                    + " blobs)"@
            },
            ErrorView::ExtendedClusterInV5 => {
                "Extended cluster encountered in v5 archive (illegal)"@
            },
            ErrorView::RedirectLoop(idx) => {
                "Redirect loop detected at entry index "@ + crate::text::decimal(idx as nat)
            },
            ErrorView::RedirectIndexOutOfRange(idx) => {
                "Redirect target index "@ + crate::text::decimal(idx as nat)
                    + " is out of range"@
            },
            ErrorView::ChecksumMismatch { expected, actual } => {
                "MD5 checksum mismatch: expected "@ + expected + ", got "@ + actual
            },
            ErrorView::LzmaDecompress(text) => "LZMA2 decompression failed: "@ + text,
            ErrorView::ZstdDecompress(text) => "Zstandard decompression failed: "@ + text,
            ErrorView::SplitArchiveNotSupported => "Split ZIM archives are not yet supported"@,
        }
    }
}

impl Error {
    /// The user-facing description of the error.
    pub fn message(&self) -> (text: String)
        ensures
            text@ == self@.message(),
    {
        let mut out: String = String::new();
        match self {
            Error::Io(text) => {
                out.append("I/O error: ");
                out.append(text.as_str());
            },
            Error::InvalidMagic(magic) => {
                out.append("Invalid magic number: expected 0x044D495A, got 0x");
                push_upper_hex(&mut out, *magic, 8);
            },
            Error::UnsupportedVersion(version) => {
                out.append("Unsupported major version: ");
                push_decimal(&mut out, *version as u64);
                out.append(" (supported: 5, 6)");
            },
            Error::TruncatedHeader(len) => {
                out.append("Truncated header: file is too small (");
                push_decimal(&mut out, *len);
                out.append(" bytes)");
            },
            Error::InvalidHeader { field, reason } => {
                out.append("Invalid header field '");
                out.append(field);
                out.append("': ");
                out.append(reason.as_str());
            },
            Error::OffsetOutOfBounds { offset, field } => {
                out.append("Offset out of file bounds: offset ");
                push_decimal(&mut out, *offset);
                out.append(" in field '");
                out.append(field);
                out.append("'");
            },
            Error::InvalidUtf8(offset) => {
                out.append("Invalid UTF-8 in string at offset ");
                push_decimal(&mut out, *offset);
            },
            Error::UnknownCompression(kind) => {
                out.append("Unknown compression type: 0x");
                push_upper_hex(&mut out, *kind as u32, 2);
            },
            Error::BlobOutOfRange { blob_number, blob_count } => {
                out.append("Blob ");
                push_decimal(&mut out, *blob_number as u64);
                out.append(" out of range (cluster has ");
                push_decimal(&mut out, *blob_count as u64);
                out.append(" blobs)");
            },
            Error::ExtendedClusterInV5 => {
                out.append("Extended cluster encountered in v5 archive (illegal)");
            },
            Error::RedirectLoop(idx) => {
                out.append("Redirect loop detected at entry index ");
                push_decimal(&mut out, *idx as u64);
            },
            Error::RedirectIndexOutOfRange(idx) => {
                out.append("Redirect target index ");
                push_decimal(&mut out, *idx as u64);
                out.append(" is out of range");
            },
            Error::ChecksumMismatch { expected, actual } => {
                out.append("MD5 checksum mismatch: expected ");
                out.append(expected.as_str());
                out.append(", got ");
                out.append(actual.as_str());
            },
            Error::LzmaDecompress(text) => {
                out.append("LZMA2 decompression failed: ");
                out.append(text.as_str());
            },
            Error::ZstdDecompress(text) => {
                out.append("Zstandard decompression failed: ");
                out.append(text.as_str());
            },
            Error::SplitArchiveNotSupported => {
                out.append("Split ZIM archives are not yet supported");
            },
        }
        assert(out@ =~= self@.message());
        out
    }
}

/// The description of an error gives each number of the error in full, each
/// text as it is, and both in the order in which they belong.
pub proof fn description_gives_what_the_error_holds(error: ErrorView)
    ensures
        match error {
            ErrorView::Io(text) => text.is_suffix_of(error.message()),
            ErrorView::InvalidMagic(magic) => crate::text::upper_hex(magic as nat, 8).is_suffix_of(
                error.message(),
            ),
            ErrorView::UnsupportedVersion(version) => ("Unsupported major version: "@
                + crate::text::decimal(version as nat) + " "@).is_prefix_of(error.message()),
            ErrorView::TruncatedHeader(len) => (crate::text::decimal(len as nat)
                + " bytes)"@).is_suffix_of(error.message()),
            ErrorView::InvalidHeader { field, reason } => (field + "': "@ + reason).is_suffix_of(
                error.message(),
            ),
            ErrorView::OffsetOutOfBounds { offset, field } => (crate::text::decimal(offset as nat)
                + " in field '"@ + field + "'"@).is_suffix_of(error.message()),
            ErrorView::InvalidUtf8(offset) => crate::text::decimal(offset as nat).is_suffix_of(
                error.message(),
            ),
            ErrorView::UnknownCompression(kind) => crate::text::upper_hex(
                kind as nat,
                2,
            ).is_suffix_of(error.message()),
            ErrorView::BlobOutOfRange { blob_number, blob_count } => {
                &&& ("Blob "@ + crate::text::decimal(blob_number as nat) + " "@).is_prefix_of(
                    error.message(),
                )
                &&& (crate::text::decimal(blob_count as nat) + " blobs)"@).is_suffix_of(
                    error.message(),
                )
            },
            ErrorView::RedirectLoop(idx) => crate::text::decimal(idx as nat).is_suffix_of(
                error.message(),
            ),
            ErrorView::RedirectIndexOutOfRange(idx) => (crate::text::decimal(idx as nat)
                + " is out of range"@).is_suffix_of(error.message()),
            ErrorView::ChecksumMismatch { expected, actual } => (expected + ", got "@
                + actual).is_suffix_of(error.message()),
            ErrorView::LzmaDecompress(text) => text.is_suffix_of(error.message()),
            ErrorView::ZstdDecompress(text) => text.is_suffix_of(error.message()),
            ErrorView::ExtendedClusterInV5 => true,
            ErrorView::SplitArchiveNotSupported => true,
        },
{
    let message = error.message();
    match error {
        ErrorView::Io(text) => {
            lemma_suffix("I/O error: "@, text);
        },
        ErrorView::InvalidMagic(magic) => {
            lemma_suffix(
                "Invalid magic number: expected 0x044D495A, got 0x"@,
                crate::text::upper_hex(magic as nat, 8),
            );
        },
        ErrorView::UnsupportedVersion(version) => {
            reveal_strlit(" ");
            reveal_strlit(" (supported: 5, 6)");
            let start = "Unsupported major version: "@ + crate::text::decimal(version as nat)
                + " "@;
            assert(message.subrange(0, start.len() as int) =~= start);
        },
        ErrorView::TruncatedHeader(len) => {
            let start = "Truncated header: file is too small ("@;
            let end = crate::text::decimal(len as nat) + " bytes)"@;
            assert(message =~= start + end);
            lemma_suffix(start, end);
        },
        ErrorView::InvalidHeader { field, reason } => {
            let start = "Invalid header field '"@;
            let end = field + "': "@ + reason;
            assert(message =~= start + end);
            lemma_suffix(start, end);
        },
        ErrorView::OffsetOutOfBounds { offset, field } => {
            let start = "Offset out of file bounds: offset "@;
            let end = crate::text::decimal(offset as nat) + " in field '"@ + field + "'"@;
            assert(message =~= start + end);
            lemma_suffix(start, end);
        },
        ErrorView::InvalidUtf8(offset) => {
            lemma_suffix(
                "Invalid UTF-8 in string at offset "@,
                crate::text::decimal(offset as nat),
            );
        },
        ErrorView::UnknownCompression(kind) => {
            lemma_suffix("Unknown compression type: 0x"@, crate::text::upper_hex(kind as nat, 2));
        },
        ErrorView::BlobOutOfRange { blob_number, blob_count } => {
            reveal_strlit(" ");
            reveal_strlit(" out of range (cluster has ");
            let head = "Blob "@ + crate::text::decimal(blob_number as nat) + " "@;
            assert(message.subrange(0, head.len() as int) =~= head);
            let start = "Blob "@ + crate::text::decimal(blob_number as nat)
                + " out of range (cluster has "@;
            let end = crate::text::decimal(blob_count as nat) + " blobs)"@;
            assert(message =~= start + end);
            lemma_suffix(start, end);
        },
        ErrorView::RedirectLoop(idx) => {
            lemma_suffix(
                "Redirect loop detected at entry index "@,
                crate::text::decimal(idx as nat),
            );
        },
        ErrorView::RedirectIndexOutOfRange(idx) => {
            let start = "Redirect target index "@;
            let end = crate::text::decimal(idx as nat) + " is out of range"@;
            assert(message =~= start + end);
            lemma_suffix(start, end);
        },
        ErrorView::ChecksumMismatch { expected, actual } => {
            let start = "MD5 checksum mismatch: expected "@;
            let end = expected + ", got "@ + actual;
            assert(message =~= start + end);
            lemma_suffix(start, end);
        },
        ErrorView::LzmaDecompress(text) => {
            lemma_suffix("LZMA2 decompression failed: "@, text);
        },
        ErrorView::ZstdDecompress(text) => {
            lemma_suffix("Zstandard decompression failed: "@, text);
        },
        ErrorView::ExtendedClusterInV5 => {},
        ErrorView::SplitArchiveNotSupported => {},
    }
}

proof fn lemma_suffix(start: Seq<char>, end: Seq<char>)
    ensures
        end.is_suffix_of(start + end),
{
    let whole = start + end;
    assert(whole.subrange(whole.len() - end.len(), whole.len() as int) =~= end);
}

/// What a result says is what it holds: its value, or what its error holds,
/// with no number or text changed.
pub proof fn outcome_is_what_the_result_holds<T: DeepView>(
    result: Result<T, Error>,
    offset: u64,
    field: &'static str,
    text: String,
    n: u32,
    kind: u8,
    count: usize,
)
    ensures
        result matches Ok(value) ==> outcome(result) == Ok::<T::V, ErrorView>(value.deep_view()),
        result matches Err(error) ==> outcome(result) == Err::<T::V, ErrorView>(error@),
        Error::InvalidMagic(n)@ == ErrorView::InvalidMagic(n as int),
        Error::TruncatedHeader(offset)@ == ErrorView::TruncatedHeader(offset as int),
        (Error::InvalidHeader { field, reason: text })@ == (ErrorView::InvalidHeader {
            field: field@,
            reason: text@,
        }),
        (Error::OffsetOutOfBounds { offset, field })@ == (ErrorView::OffsetOutOfBounds {
            offset: offset as int,
            field: field@,
        }),
        Error::InvalidUtf8(offset)@ == ErrorView::InvalidUtf8(offset as int),
        Error::UnknownCompression(kind)@ == ErrorView::UnknownCompression(kind as int),
        (Error::BlobOutOfRange { blob_number: n, blob_count: count })@
            == (ErrorView::BlobOutOfRange { blob_number: n as int, blob_count: count as int }),
        Error::RedirectLoop(n)@ == ErrorView::RedirectLoop(n as int),
        Error::RedirectIndexOutOfRange(n)@ == ErrorView::RedirectIndexOutOfRange(n as int),
        Error::LzmaDecompress(text)@ == ErrorView::LzmaDecompress(text@),
        Error::ZstdDecompress(text)@ == ErrorView::ZstdDecompress(text@),
{
}

} // verus!
