//! What the library relies on without proof: functions of the standard
//! library and of the decompression crates, each with the facts used of it.
//! What happens when memory runs out is not spoken of.
use vstd::prelude::*;
use vstd::string::*;
use vstd::utf8::*;

verus! {

/// The error of [`core::str::from_utf8`]; carried as an opaque value.
#[verifier::external_type_specification]
#[verifier::external_body]
pub struct ExUtf8Error(core::str::Utf8Error);

/// [`core::str::from_utf8`] accepts exactly the byte sequences that are valid
/// UTF-8, and returns the string with those bytes.
pub assume_specification[ core::str::from_utf8 ](v: &[u8]) -> (res: std::result::Result<
    &str,
    std::str::Utf8Error,
>)
    ensures
        res is Ok <==> valid_utf8(v@),
        res matches Ok(s) ==> s.spec_bytes() == v@,
;

/// What a decoder gave: the decoded bytes, or its description of the failure.
pub open spec fn decoder_outcome(decoded: Result<Vec<u8>, String>) -> Result<
    Seq<u8>,
    Seq<char>,
> {
    match decoded {
        Ok(bytes) => Ok(bytes@),
        Err(text) => Err(text@),
    }
}

/// How many bytes of `data` an LZMA2 decoder reads until LZMA2 data ends, with
/// what follows it left unread; `None` if it fails before.
pub uninterp spec fn lzma2_length(data: Seq<u8>) -> Option<nat>;

/// Decodes LZMA2 data at the start of `data` with [`lzma_rs::lzma2_decompress`],
/// and gives how many bytes the decoder has read, which are not more than there
/// are. How many it reads is a function of the bytes alone; which one is not
/// said here. What the data decodes to is dropped.
#[verifier::external_body]
pub(crate) fn lzma2_span(data: &[u8]) -> (span: Option<usize>)
    ensures
        match span {
            Some(len) => lzma2_length(data@) == Some(len as nat) && len <= data@.len(),
            None => lzma2_length(data@) is None,
        },
{
    let mut cursor = std::io::Cursor::new(data);
    match lzma_rs::lzma2_decompress(&mut cursor, &mut std::io::sink()) {
        Ok(()) => Some(cursor.position() as usize),
        Err(_) => None,
    }
}

/// What `lzma_rs::xz_decompress` gives on these bytes: everything it writes,
/// or the text of its error.
pub uninterp spec fn xz_decoded(data: Seq<u8>) -> Result<Seq<u8>, Seq<char>>;

/// Decodes an xz stream with [`lzma_rs::xz_decompress`]. The outcome is a
/// function of the bytes alone; which one is not said here.
///
/// The decoder panics, where overflow is checked, on one footer: one with the
/// backward size 0xFFFFFFFF, to which it adds one. It reads a stream from front
/// to back, and where it reads the backward size hangs on the bytes before it
/// only: behind the LZMA2 data of each block, for which it calls the decoder of
/// [`lzma2_span`], and behind as many numbers of the index as the blocks ask
/// for. A stream with another word in that place is safe, and so is one that
/// had 0xFFFFFFFF there before another word was put in its place.
#[verifier::external_body]
pub(crate) fn xz_decode(data: &[u8]) -> (res: Result<Vec<u8>, String>)
    requires
        exists|stream: Seq<u8>| data@ == #[trigger] crate::xz::tamed(stream),
    ensures
        decoder_outcome(res) == xz_decoded(data@),
{
    let mut cursor = std::io::Cursor::new(data);
    let mut out: Vec<u8> = Vec::new();
    match lzma_rs::xz_decompress(&mut cursor, &mut out) {
        Ok(()) => Ok(out),
        Err(error) => Err(error.to_string()),
    }
}

/// What a `ruzstd` streaming decoder gives on these bytes, with this limit on
/// the window that a frame may declare: everything that can be read from it, or
/// the text of the first error.
///
/// Addresses are taken to have 64 bits where a frame declares a window of 4 GiB
/// or more. A sequence that reaches back further than the window of its frame is
/// an error unless those bytes have not been handed out yet, which hangs on the
/// sizes of the pieces that `std::io::Read::read_to_end` asks for: they are the
/// same in every run of one build.
pub uninterp spec fn zstd_decoded(data: Seq<u8>, max_window: u64) -> Result<Seq<u8>, Seq<char>>;

/// Decodes a Zstandard frame with [`ruzstd::decoding::StreamingDecoder`], read
/// to its end. Frames that declare a window of more than `max_window` bytes are
/// errors. The outcome is a function of the bytes and the limit; which one is
/// not said here.
#[verifier::external_body]
pub(crate) fn zstd_decode(data: &[u8], max_window: u64) -> (res: Result<Vec<u8>, String>)
    ensures
        decoder_outcome(res) == zstd_decoded(data@, max_window),
{
    let decoder = ruzstd::decoding::StreamingDecoder::new_with_max_window_size(data, max_window);
    let mut decoder = match decoder {
        Ok(decoder) => decoder,
        Err(error) => return Err(error.to_string()),
    };
    let mut out: Vec<u8> = Vec::new();
    match std::io::Read::read_to_end(&mut decoder, &mut out) {
        Ok(_) => Ok(out),
        Err(error) => Err(error.to_string()),
    }
}

/// The position just after the last `c` in `text`; 0 if there is none.
pub open spec fn after_last(text: Seq<char>, c: char) -> int
    decreases text.len(),
{
    if text.len() == 0 {
        0
    } else if text.last() == c {
        text.len() as int
    } else {
        after_last(text.drop_last(), c)
    }
}

/// A path without the slashes and single dots at its end, which do not count.
pub open spec fn trimmed_path(path: Seq<char>) -> Seq<char>
    decreases path.len(),
{
    if path.len() > 0 && path.last() == '/' {
        trimmed_path(path.drop_last())
    } else if path.len() > 1 && path.last() == '.' && path[path.len() - 2] == '/' {
        trimmed_path(path.drop_last())
    } else {
        path
    }
}

/// The last part of a path.
pub open spec fn file_name_of(path: Seq<char>) -> Seq<char> {
    let trimmed = trimmed_path(path);
    trimmed.skip(after_last(trimmed, '/'))
}

/// The extension of a path: what follows the last dot of its file name, if a
/// dot stands there and is not the first character. Two dots are no file name.
pub open spec fn extension_of(path: Seq<char>) -> Option<Seq<char>> {
    let name = file_name_of(path);
    let start = after_last(name, '.');
    if name == ".."@ || start <= 1 {
        None
    } else {
        Some(name.skip(start))
    }
}

/// Whether a path is written so that every platform reads it alike: without
/// backslashes, colons, and two slashes at its start.
pub open spec fn is_plain_path(path: Seq<char>) -> bool {
    &&& !path.contains('\\')
    &&& !path.contains(':')
    &&& !"//"@.is_prefix_of(path)
}

/// Whether a character divides paths on some platform.
pub open spec fn is_separator(c: char) -> bool {
    c == '/' || c == '\\'
}

/// Whether a path ends, on some platform, in what does not belong to its file
/// name: a separator, or a single dot behind one.
pub open spec fn ends_in_separator(path: Seq<char>) -> bool {
    ||| path.len() > 0 && is_separator(path.last())
    ||| path.len() > 1 && path.last() == '.' && is_separator(path[path.len() - 2])
}

/// Whether what follows the last dot of a path is its extension on every
/// platform: no separator or colon stands behind that dot or directly before
/// it, it is neither the first character nor the last, and the path does not
/// start with two separators.
pub open spec fn extension_is_certain(path: Seq<char>) -> bool {
    let start = after_last(path, '.');
    &&& 2 <= start < path.len()
    &&& !is_separator(path[start - 2]) && path[start - 2] != ':'
    &&& forall|i: int| start <= i < path.len() ==> !is_separator(#[trigger] path[i]) && path[i] != ':'
    &&& !(is_separator(path[0]) && is_separator(path[1]))
}

/// The extension of a path, by [`std::path::Path::extension`], if it is
/// Unicode.
///
/// Of a plain path it is what follows the last dot of the file name, where
/// that dot is not the first character and the file name is not `..`; slashes
/// at the end of the path, and single dots behind them, do not count.
///
/// Of every path: an extension has no dot; where the path ends in its file
/// name on every platform, the extension stands at its end, behind a dot; and
/// where the last dot is inside the file name on every platform, what follows
/// it is the extension. Nothing more is said of paths that are not plain:
/// platforms divide them differently.
#[verifier::external_body]
pub(crate) fn path_extension(path: &str) -> (extension: Option<&str>)
    ensures
        is_plain_path(path@) ==> match extension {
            Some(text) => extension_of(path@) == Some(text@),
            None => extension_of(path@) is None,
        },
        match extension {
            Some(text) => !text@.contains('.') && (!ends_in_separator(path@) ==> (seq!['.']
                + text@).is_suffix_of(path@)),
            None => true,
        },
        extension_is_certain(path@) ==> match extension {
            Some(text) => text@ == path@.skip(after_last(path@, '.')),
            None => false,
        },
{
    match std::path::Path::new(path).extension() {
        Some(extension) => extension.to_str(),
        None => None,
    }
}

} // verus!
