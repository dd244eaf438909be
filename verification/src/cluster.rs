//! Clusters: compressed groups of blobs.
use vstd::prelude::*;
use vstd::slice::slice_to_vec;

use crate::boundary::zstd_decode;
use crate::error::{outcome, Error, ErrorView};
use crate::util::{position, read_u32_le, read_u64_le};
use crate::xz::decode_xz;

verus! {

/// A compression type: the payload is stored as it is.
pub const UNCOMPRESSED_A: u8 = 0x00;

/// A second compression type for payloads that are stored as they are.
pub const UNCOMPRESSED_B: u8 = 0x01;

/// The compression type of LZMA2 payloads (an xz stream).
pub const COMPRESSION_LZMA2: u8 = 0x04;

/// The compression type of Zstandard payloads.
pub const COMPRESSION_ZSTD: u8 = 0x05;

/// No limit on the window that a Zstandard frame may declare, but for that of
/// the decoder itself, which is above 2 TiB.
pub const ANY_WINDOW: u64 = 0xFFFF_FFFF_FFFF_FFFF;

/// Decoded first byte of a cluster.
#[derive(Debug, Clone, Copy, PartialEq, Eq, Structural)]
pub struct ClusterInfo {
    /// Compression type of the payload.
    pub compression: u8,
    /// Whether the blob offsets have 8 bytes each; 4 otherwise.
    pub extended: bool,
}

impl DeepView for ClusterInfo {
    type V = ClusterInfo;

    open spec fn deep_view(&self) -> ClusterInfo {
        *self
    }
}

/// What the first byte of a cluster says in an archive of this version: the
/// lower half is the compression type, and the bit above it is the extended
/// flag, which version 5 does not have.
pub open spec fn cluster_info_of(byte: u8, major_version: u16) -> Result<ClusterInfo, ErrorView> {
    let info = ClusterInfo { compression: (byte % 16) as u8, extended: (byte / 16) % 2 == 1 };
    if info.extended && major_version == 5 {
        Err(ErrorView::ExtendedClusterInV5)
    } else {
        Ok(info)
    }
}

/// The outcome of decompressing an LZMA2 payload, given what the decoder gave.
pub open spec fn lzma_outcome(decoded: Result<Seq<u8>, Seq<char>>) -> Result<Seq<u8>, ErrorView> {
    match decoded {
        Ok(bytes) => Ok(bytes),
        Err(text) => Err(ErrorView::LzmaDecompress(text)),
    }
}

/// The outcome of decompressing a Zstandard payload, given what the decoder
/// gave.
pub open spec fn zstd_outcome(decoded: Result<Seq<u8>, Seq<char>>) -> Result<Seq<u8>, ErrorView> {
    match decoded {
        Ok(bytes) => Ok(bytes),
        Err(text) => Err(ErrorView::ZstdDecompress(text)),
    }
}

/// What decompressing a payload of this compression type gives. In an LZMA2
/// payload with the backward size 0xFFFFFFFF, another size that the decoder
/// takes for the same stands in its place.
pub open spec fn decompressed(compression: u8, data: Seq<u8>) -> Result<Seq<u8>, ErrorView> {
    if compression == UNCOMPRESSED_A || compression == UNCOMPRESSED_B {
        Ok(data)
    } else if compression == COMPRESSION_LZMA2 {
        lzma_outcome(crate::boundary::xz_decoded(crate::xz::tamed(data)))
    } else if compression == COMPRESSION_ZSTD {
        zstd_outcome(crate::boundary::zstd_decoded(data, ANY_WINDOW))
    } else {
        Err(ErrorView::UnknownCompression(compression as int))
    }
}

/// How many bytes a blob offset takes.
pub open spec fn offset_width(extended: bool) -> nat {
    if extended {
        8
    } else {
        4
    }
}

/// Reading blob offset `i` at the start of a decompressed cluster.
pub open spec fn blob_offset(payload: Seq<u8>, i: int, extended: bool) -> Result<nat, ErrorView> {
    crate::util::read_le(
        payload,
        crate::util::position_after(0, i * offset_width(extended)),
        offset_width(extended),
        "cluster_offset"@,
    )
}

/// The number of blobs in a cluster whose first blob offset is `first`: the
/// offsets fill the bytes before it, one for each blob and one for the end.
pub open spec fn blob_count_of(first: nat, extended: bool) -> Result<nat, ErrorView> {
    let width = offset_width(extended);
    if first < width || first % width != 0 {
        Err(crate::util::out_of_bounds(first as int, "cluster_first_offset"@))
    } else {
        Ok((first / width - 1) as nat)
    }
}

/// The bytes of `payload` from `start` up to `end`.
pub open spec fn blob_between(payload: Seq<u8>, start: nat, end: nat) -> Result<
    Seq<u8>,
    ErrorView,
> {
    if start > end || end > payload.len() {
        Err(crate::util::out_of_bounds(end as int, "blob_end"@))
    } else {
        Ok(payload.subrange(start as int, end as int))
    }
}

/// What extracting blob `blob_number` from a decompressed cluster gives.
pub open spec fn blob_of(payload: Seq<u8>, blob_number: u32, extended: bool) -> Result<
    Seq<u8>,
    ErrorView,
> {
    match blob_offset(payload, 0, extended) {
        Err(error) => Err(error),
        Ok(first) => match blob_count_of(first, extended) {
            Err(error) => Err(error),
            Ok(blob_count) => if blob_number >= blob_count {
                Err(
                    ErrorView::BlobOutOfRange {
                        blob_number: blob_number as int,
                        blob_count: blob_count as int,
                    },
                )
            } else {
                match blob_offset(payload, blob_number as int, extended) {
                    Err(error) => Err(error),
                    Ok(start) => match blob_offset(payload, blob_number + 1, extended) {
                        Err(error) => Err(error),
                        Ok(end) => blob_between(payload, start, end),
                    },
                }
            },
        },
    }
}

impl ClusterInfo {
    /// Decodes a cluster info byte. Rejects the extended flag on version 5
    /// archives; the three highest bits are reserved and ignored.
    pub fn from_byte(byte: u8, major_version: u16) -> (res: Result<ClusterInfo, Error>)
        ensures
            outcome(res) == cluster_info_of(byte, major_version),
    {
        assert(byte & 0x0F == byte % 16) by (bit_vector);
        assert((byte & 0x10 != 0) == ((byte / 16) % 2 == 1)) by (bit_vector);
        let compression: u8 = byte & 0x0F;
        let extended: bool = (byte & 0x10) != 0;
        if extended && major_version == 5 {
            return Err(Error::ExtendedClusterInV5);
        }
        Ok(ClusterInfo { compression, extended })
    }
}

/// Turns what the xz decoder gave into the outcome of decompressing.
pub fn lzma_result(decoded: Result<Vec<u8>, String>) -> (res: Result<Vec<u8>, Error>)
    ensures
        outcome(res) == lzma_outcome(crate::boundary::decoder_outcome(decoded)),
{
    match decoded {
        Ok(bytes) => {
            assert(bytes.deep_view() =~= bytes@);
            Ok(bytes)
        },
        Err(text) => Err(Error::LzmaDecompress(text)),
    }
}

/// Turns what the Zstandard decoder gave into the outcome of decompressing.
pub fn zstd_result(decoded: Result<Vec<u8>, String>) -> (res: Result<Vec<u8>, Error>)
    ensures
        outcome(res) == zstd_outcome(crate::boundary::decoder_outcome(decoded)),
{
    match decoded {
        Ok(bytes) => {
            assert(bytes.deep_view() =~= bytes@);
            Ok(bytes)
        },
        Err(text) => Err(Error::ZstdDecompress(text)),
    }
}

/// Decompresses a cluster payload (the bytes after the info byte).
pub fn decompress(info: &ClusterInfo, data: &[u8]) -> (res: Result<Vec<u8>, Error>)
    ensures
        outcome(res) == decompressed(info.compression, data@),
{
    match info.compression {
        UNCOMPRESSED_A | UNCOMPRESSED_B => {
            let bytes: Vec<u8> = slice_to_vec(data);
            assert(bytes.deep_view() =~= data@);
            Ok(bytes)
        },
        COMPRESSION_LZMA2 => lzma_result(decode_xz(data)),
        COMPRESSION_ZSTD => zstd_result(zstd_decode(data, ANY_WINDOW)),
        other => Err(Error::UnknownCompression(other)),
    }
}

/// Reads blob offset `i` of a decompressed cluster.
fn read_blob_offset(payload: &[u8], i: u64, extended: bool) -> (res: Result<u64, Error>)
    requires
        i <= u32::MAX + 1,
    ensures
        match res {
            Ok(off) => blob_offset(payload@, i as int, extended) == Ok::<nat, ErrorView>(
                off as nat,
            ),
            Err(error) => blob_offset(payload@, i as int, extended) == Err::<nat, ErrorView>(
                error@,
            ),
        },
{
    if extended {
        read_u64_le(payload, position(0, i * 8), "cluster_offset")
    } else {
        match read_u32_le(payload, position(0, i * 4), "cluster_offset") {
            Ok(off) => Ok(off as u64),
            Err(error) => Err(error),
        }
    }
}

/// Extracts one blob from an already decompressed cluster.
///
/// Reads offsets (4 bytes each, or 8 bytes if `extended`) from the start of
/// `decompressed`, derives the number of blobs from the first of them, checks
/// `blob_number` against it, and copies out the bytes between the blob's
/// offset and the next.
pub fn extract_blob(decompressed: &[u8], blob_number: u32, extended: bool) -> (res: Result<
    Vec<u8>,
    Error,
>)
    ensures
        outcome(res) == blob_of(decompressed@, blob_number, extended),
{
    let width: u64 = if extended {
        8
    } else {
        4
    };
    let first: u64 = match read_blob_offset(decompressed, 0, extended) {
        Ok(off) => off,
        Err(error) => {
            return Err(error);
        },
    };
    if first < width || first % width != 0 {
        return Err(Error::OffsetOutOfBounds { offset: first, field: "cluster_first_offset" });
    }
    let blob_count: u64 = first / width - 1;
    if blob_number as u64 >= blob_count {
        return Err(Error::BlobOutOfRange { blob_number, blob_count: blob_count as usize });
    }
    let start: u64 = match read_blob_offset(decompressed, blob_number as u64, extended) {
        Ok(off) => off,
        Err(error) => {
            return Err(error);
        },
    };
    let end: u64 = match read_blob_offset(decompressed, blob_number as u64 + 1, extended) {
        Ok(off) => off,
        Err(error) => {
            return Err(error);
        },
    };
    if start > end || end > decompressed.len() as u64 {
        return Err(Error::OffsetOutOfBounds { offset: end, field: "blob_end" });
    }
    let blob: Vec<u8> = slice_to_vec(&decompressed[start as usize..end as usize]);
    assert(blob.deep_view() =~= decompressed@.subrange(start as int, end as int));
    Ok(blob)
}

/// The blob offsets of a cluster as they are stored: where each blob starts,
/// the first of them at `start`, and where the last one ends.
pub open spec fn offsets_bytes(start: nat, blobs: Seq<Seq<u8>>, width: nat) -> Seq<u8>
    decreases blobs.len(),
{
    if blobs.len() == 0 {
        crate::util::le_bytes(start, width)
    } else {
        crate::util::le_bytes(start, width) + offsets_bytes(
            start + blobs[0].len(),
            blobs.drop_first(),
            width,
        )
    }
}

/// The blobs one behind the other.
pub open spec fn joined(blobs: Seq<Seq<u8>>) -> Seq<u8>
    decreases blobs.len(),
{
    if blobs.len() == 0 {
        Seq::empty()
    } else {
        blobs[0] + joined(blobs.drop_first())
    }
}

/// How many bytes the offsets of so many blobs take.
pub open spec fn offsets_len(count: nat, extended: bool) -> nat {
    (count + 1) * offset_width(extended)
}

/// The payload of a cluster with these blobs as it is stored: the offsets, and
/// the blobs behind them.
pub open spec fn payload_bytes(blobs: Seq<Seq<u8>>, extended: bool) -> Seq<u8> {
    offsets_bytes(offsets_len(blobs.len(), extended), blobs, offset_width(extended)) + joined(blobs)
}

/// Whether a cluster with these blobs can be stored: its offsets fit their
/// width, and the blobs can be counted and addressed.
pub open spec fn can_be_stored(blobs: Seq<Seq<u8>>, extended: bool) -> bool {
    &&& offsets_len(blobs.len(), extended) + joined(blobs).len() < crate::util::le_limit(
        offset_width(extended),
    )
    &&& offsets_len(blobs.len(), extended) <= usize::MAX
}

/// Offset `i` is read back: it is the start and the length of the blobs before
/// blob `i`.
proof fn lemma_offset(start: nat, blobs: Seq<Seq<u8>>, width: nat, i: int)
    requires
        0 <= i <= blobs.len(),
    ensures
        offsets_bytes(start, blobs, width).len() == (blobs.len() + 1) * width,
        i * width + width <= (blobs.len() + 1) * width,
        offsets_bytes(start, blobs, width).subrange(i * width, i * width + width)
            == crate::util::le_bytes(start + joined(blobs.take(i)).len(), width),
    decreases blobs.len(),
{
    let first = crate::util::le_bytes(start, width);
    crate::util::le_value_is_bounded(Seq::empty(), start, width);
    assert((blobs.len() + 1) * width == blobs.len() * width + width) by (nonlinear_arith);
    if blobs.len() == 0 {
        assert(i * width == 0) by (nonlinear_arith)
            requires
                i == 0,
        ;
        assert(blobs.len() * width == 0) by (nonlinear_arith)
            requires
                blobs.len() == 0,
        ;
        assert(first.subrange(0, width as int) =~= first);
        assert(blobs.take(0) =~= Seq::empty());
    } else {
        let rest = blobs.drop_first();
        let tail = offsets_bytes(start + blobs[0].len(), rest, width);
        assert((rest.len() + 1) * width == blobs.len() * width) by (nonlinear_arith)
            requires
                rest.len() + 1 == blobs.len(),
        ;
        if i == 0 {
            lemma_offset(start + blobs[0].len(), rest, width, 0);
            assert(i * width == 0) by (nonlinear_arith)
                requires
                    i == 0,
            ;
            assert((first + tail).subrange(0, width as int) =~= first);
            assert(blobs.take(0) =~= Seq::empty());
        } else {
            lemma_offset(start + blobs[0].len(), rest, width, i - 1);
            assert(i * width == (i - 1) * width + width) by (nonlinear_arith);
            assert((i - 1) * width >= 0) by (nonlinear_arith)
                requires
                    i >= 1,
            ;
            assert((first + tail).subrange(i * width, i * width + width) =~= tail.subrange(
                (i - 1) * width,
                (i - 1) * width + width,
            ));
            assert(blobs.take(i).drop_first() =~= rest.take(i - 1));
            assert(blobs.take(i)[0] == blobs[0]);
        }
    }
}

/// Blob `i` stands behind those before it.
proof fn lemma_joined(blobs: Seq<Seq<u8>>, i: int)
    requires
        0 <= i < blobs.len(),
    ensures
        joined(blobs.take(i + 1)).len() == joined(blobs.take(i)).len() + blobs[i].len(),
        joined(blobs.take(i + 1)).len() <= joined(blobs).len(),
        joined(blobs).subrange(
            joined(blobs.take(i)).len() as int,
            joined(blobs.take(i + 1)).len() as int,
        ) == blobs[i],
    decreases blobs.len(),
{
    let rest = blobs.drop_first();
    assert(blobs.take(i + 1).drop_first() =~= rest.take(i));
    if i == 0 {
        assert(blobs.take(0) =~= Seq::empty());
        assert(rest.take(0) =~= Seq::empty());
        assert(joined(blobs).subrange(0, blobs[0].len() as int) =~= blobs[0]);
    } else {
        lemma_joined(rest, i - 1);
        assert(blobs.take(i).drop_first() =~= rest.take(i - 1));
        assert(joined(blobs).subrange(
            joined(blobs.take(i)).len() as int,
            joined(blobs.take(i + 1)).len() as int,
        ) =~= joined(rest).subrange(
            joined(rest.take(i - 1)).len() as int,
            joined(rest.take(i)).len() as int,
        ));
    }
}

/// Offset `i` of a stored cluster is read back.
proof fn lemma_stored_offset(blobs: Seq<Seq<u8>>, extended: bool, i: int, after: Seq<u8>)
    requires
        can_be_stored(blobs, extended),
        0 <= i <= blobs.len(),
    ensures
        blob_offset(payload_bytes(blobs, extended) + after, i, extended) == Ok::<nat, ErrorView>(
            offsets_len(blobs.len(), extended) + joined(blobs.take(i)).len(),
        ),
{
    let width = offset_width(extended);
    let start = offsets_len(blobs.len(), extended);
    let offsets = offsets_bytes(start, blobs, width);
    let buf = payload_bytes(blobs, extended) + after;
    let n = start + joined(blobs.take(i)).len();
    lemma_offset(start, blobs, width, i);
    assert(0 <= i * width) by (nonlinear_arith)
        requires
            0 <= i,
    ;
    assert(buf.subrange(i * width, i * width + width) =~= offsets.subrange(
        i * width,
        i * width + width,
    ));
    if i < blobs.len() {
        lemma_joined(blobs, i);
    } else {
        assert(blobs.take(i) =~= blobs);
    }
    crate::util::le_value_of_le_bytes(n, width);
}

/// Writing a cluster and extracting a blob gives the blob back, whatever
/// follows, for each of its blobs.
pub proof fn blob_is_read_back(
    blobs: Seq<Seq<u8>>,
    extended: bool,
    blob_number: u32,
    after: Seq<u8>,
)
    requires
        can_be_stored(blobs, extended),
        blob_number < blobs.len(),
    ensures
        blob_of(payload_bytes(blobs, extended) + after, blob_number, extended) == Ok::<
            Seq<u8>,
            ErrorView,
        >(blobs[blob_number as int]),
{
    let i = blob_number as int;
    let width = offset_width(extended);
    let start = offsets_len(blobs.len(), extended);
    let buf = payload_bytes(blobs, extended) + after;
    lemma_stored_offset(blobs, extended, 0, after);
    lemma_stored_offset(blobs, extended, i, after);
    lemma_stored_offset(blobs, extended, i + 1, after);
    lemma_offset(start, blobs, width, 0);
    lemma_joined(blobs, i);
    lemma_first_offset(blobs, extended);
    assert(buf.subrange(
        start as int + joined(blobs.take(i)).len(),
        start as int + joined(blobs.take(i + 1)).len(),
    ) =~= joined(blobs).subrange(
        joined(blobs.take(i)).len() as int,
        joined(blobs.take(i + 1)).len() as int,
    ));
}

/// The first offset tells how many blobs a cluster has.
proof fn lemma_first_offset(blobs: Seq<Seq<u8>>, extended: bool)
    ensures
        joined(blobs.take(0)).len() == 0,
        blob_count_of(offsets_len(blobs.len(), extended), extended) == Ok::<nat, ErrorView>(
            blobs.len(),
        ),
{
    assert(blobs.take(0) =~= Seq::empty());
}

/// Extracting a blob that a written cluster does not have tells how many it
/// has.
pub proof fn blob_beyond_is_out_of_range(
    blobs: Seq<Seq<u8>>,
    extended: bool,
    blob_number: u32,
    after: Seq<u8>,
)
    requires
        can_be_stored(blobs, extended),
        blob_number >= blobs.len(),
    ensures
        blob_of(payload_bytes(blobs, extended) + after, blob_number, extended) == Err::<
            Seq<u8>,
            ErrorView,
        >(
            ErrorView::BlobOutOfRange {
                blob_number: blob_number as int,
                blob_count: blobs.len() as int,
            },
        ),
{
    lemma_stored_offset(blobs, extended, 0, after);
    lemma_first_offset(blobs, extended);
}

/// The three highest bits of the info byte do not matter.
pub proof fn reserved_bits_are_ignored(byte: u8, major_version: u16)
    ensures
        cluster_info_of(byte, major_version) == cluster_info_of((byte % 32) as u8, major_version),
{
}

/// Only version 5 archives reject an info byte, and only for the extended
/// flag.
pub proof fn info_byte_is_rejected_only_in_v5(byte: u8, major_version: u16)
    ensures
        cluster_info_of(byte, major_version) is Err <==> major_version == 5 && (byte / 16) % 2 == 1,
{
}

/// A payload that is not compressed is its own decompression, for both
/// compression types that say so.
pub proof fn uncompressed_is_unchanged(data: Seq<u8>)
    ensures
        decompressed(UNCOMPRESSED_A, data) == Ok::<Seq<u8>, ErrorView>(data),
        decompressed(UNCOMPRESSED_B, data) == Ok::<Seq<u8>, ErrorView>(data),
{
}

/// What the first byte of a cluster says makes up that byte, but for its three
/// highest bits.
pub proof fn info_byte_is_made_up_of_what_it_says(byte: u8, major_version: u16)
    ensures
        cluster_info_of(byte, major_version) matches Ok(info) ==> {
            &&& info.compression < 16
            &&& byte % 32 == info.compression + if info.extended {
                16int
            } else {
                0
            }
        },
        cluster_info_of(byte, major_version) matches Err(error) ==> error
            == ErrorView::ExtendedClusterInV5,
{
}

/// The payload of a compressed cluster is what the decoder of its compression
/// type makes of it: that of xz streams for type 4, that of Zstandard frames for
/// type 5. A failure of the decoder is reported with its text, and types other
/// than 0, 1, 4 and 5 are unknown.
pub proof fn compression_type_picks_the_decoder(compression: u8, data: Seq<u8>)
    ensures
        compression == 4 ==> match decompressed(compression, data) {
            Ok(bytes) => crate::boundary::xz_decoded(crate::xz::tamed(data)) == Ok::<
                Seq<u8>,
                Seq<char>,
            >(bytes),
            Err(error) => error is LzmaDecompress && crate::boundary::xz_decoded(
                crate::xz::tamed(data),
            ) == Err::<Seq<u8>, Seq<char>>(error->LzmaDecompress_0),
        },
        compression == 5 ==> match decompressed(compression, data) {
            Ok(bytes) => crate::boundary::zstd_decoded(data, u64::MAX) == Ok::<Seq<u8>, Seq<char>>(
                bytes,
            ),
            Err(error) => error is ZstdDecompress && crate::boundary::zstd_decoded(data, u64::MAX)
                == Err::<Seq<u8>, Seq<char>>(error->ZstdDecompress_0),
        },
        compression > 1 && compression != 4 && compression != 5 ==> decompressed(compression, data)
            == Err::<Seq<u8>, ErrorView>(ErrorView::UnknownCompression(compression as int)),
{
}

/// The number in offset `i` at the start of a payload: of eight bytes in an
/// extended cluster, of four in any other.
pub open spec fn offset_number(payload: Seq<u8>, i: int, extended: bool) -> nat {
    if extended {
        crate::util::le_value(payload.subrange(8 * i, 8 * i + 8))
    } else {
        crate::util::le_value(payload.subrange(4 * i, 4 * i + 4))
    }
}

/// A blob is what stands between its offset and the next, whatever stands
/// between the blobs: it is extracted exactly if both offsets are among those
/// that the first offset makes room for, are in the payload, and are in order.
pub proof fn blob_stands_between_its_offsets(payload: Seq<u8>, blob_number: u32, extended: bool)
    requires
        payload.len() <= usize::MAX,
    ensures
        ({
            let width: int = if extended {
                8
            } else {
                4
            };
            let first = offset_number(payload, 0, extended) as int;
            let start = offset_number(payload, blob_number as int, extended) as int;
            let end = offset_number(payload, blob_number + 1, extended) as int;
            match blob_of(payload, blob_number, extended) {
                Ok(blob) => {
                    &&& first % width == 0
                    &&& blob_number + 2 <= first / width
                    &&& blob_number + 2 <= payload.len() as int / width
                    &&& start <= end <= payload.len()
                    &&& blob == payload.subrange(start, end)
                },
                Err(ErrorView::BlobOutOfRange { blob_number: number, blob_count }) => {
                    &&& number == blob_number
                    &&& blob_count == first / width - 1
                    &&& blob_number >= blob_count
                    &&& first % width == 0 && first >= width
                },
                Err(_) => {
                    ||| payload.len() < width
                    ||| first < width
                    ||| first % width != 0
                    ||| blob_number + 2 > payload.len() as int / width
                    ||| start > end
                    ||| end > payload.len()
                },
            }
        }),
{
    if extended {
        assert(0 * offset_width(extended) == 0);
        assert(blob_number * offset_width(extended) == 8 * blob_number);
        assert((blob_number + 1) * offset_width(extended) == 8 * (blob_number + 1));
    } else {
        assert(0 * offset_width(extended) == 0);
        assert(blob_number * offset_width(extended) == 4 * blob_number);
        assert((blob_number + 1) * offset_width(extended) == 4 * (blob_number + 1));
    }
}

} // verus!
