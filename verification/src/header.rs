//! The 80-byte header at the start of an archive.
use vstd::prelude::*;
use vstd::string::*;

use crate::error::{Error, ErrorView};
use crate::text::{push_decimal, push_lower_hex_byte};
use crate::util::{read_u16_le, read_u32_le, read_u64_le};

verus! {

/// Length of the header in bytes.
pub const HEADER_SIZE: usize = 80;

/// The magic number that starts every ZIM archive.
pub const ZIM_MAGIC: u32 = 0x044D_495A;

/// The stored entry index that stands for an absent page.
pub const U32_ABSENT: u32 = 0xFFFF_FFFF;

/// The 80-byte ZIM file header.
///
/// Parsed once when an archive is opened. All offsets are byte positions from
/// the start of the file.
#[derive(Debug)]
pub struct Header {
    /// Fixed magic number `0x044D495A` identifying the file as a ZIM archive.
    pub magic_number: u32,
    /// Major version. Supported values are `5` and `6`.
    pub major_version: u16,
    /// Minor version. On major `6`, values `>= 1` select the "New" namespace
    /// convention (see [`crate::namespace::NamespaceMode`]).
    pub minor_version: u16,
    /// Archive-wide UUID. Stable across copies of the same archive.
    pub uuid: [u8; 16],
    /// Number of directory entries in the path and title pointer lists.
    pub entry_count: u32,
    /// Number of clusters in the cluster pointer list.
    pub cluster_count: u32,
    /// File offset of the path pointer list (u64 entries, one per directory
    /// entry).
    pub path_ptr_pos: u64,
    /// File offset of the title pointer list (u32 entries, each indexing into
    /// the path pointer list).
    pub title_ptr_pos: u64,
    /// File offset of the cluster pointer list (u64 entries, one per cluster).
    pub cluster_ptr_pos: u64,
    /// File offset of the MIME type list. Always `80`: the MIME list
    /// immediately follows the header.
    pub mime_list_pos: u64,
    /// Entry index of the main page, or `None` when the stored sentinel
    /// `0xFFFFFFFF` says that there is none.
    pub main_page: Option<u32>,
    /// Entry index of the layout page, or `None` when the stored sentinel
    /// `0xFFFFFFFF` says that there is none.
    pub layout_page: Option<u32>,
    /// File offset of the 16-byte MD5 checksum trailer. Equal to
    /// `file_len - 16`.
    pub checksum_pos: u64,
}

/// The fields of a [`Header`], with the UUID as a sequence.
#[verifier::ext_equal]
pub struct HeaderView {
    pub magic_number: u32,
    pub major_version: u16,
    pub minor_version: u16,
    pub uuid: Seq<u8>,
    pub entry_count: u32,
    pub cluster_count: u32,
    pub path_ptr_pos: u64,
    pub title_ptr_pos: u64,
    pub cluster_ptr_pos: u64,
    pub mime_list_pos: u64,
    pub main_page: Option<u32>,
    pub layout_page: Option<u32>,
    pub checksum_pos: u64,
}

impl View for Header {
    type V = HeaderView;

    open spec fn view(&self) -> HeaderView {
        HeaderView {
            magic_number: self.magic_number,
            major_version: self.major_version,
            minor_version: self.minor_version,
            uuid: self.uuid@,
            entry_count: self.entry_count,
            cluster_count: self.cluster_count,
            path_ptr_pos: self.path_ptr_pos,
            title_ptr_pos: self.title_ptr_pos,
            cluster_ptr_pos: self.cluster_ptr_pos,
            mime_list_pos: self.mime_list_pos,
            main_page: self.main_page,
            layout_page: self.layout_page,
            checksum_pos: self.checksum_pos,
        }
    }
}

impl DeepView for Header {
    type V = HeaderView;

    open spec fn deep_view(&self) -> HeaderView {
        self@
    }
}

impl Clone for Header {
    fn clone(&self) -> (header: Header)
        ensures
            header == *self,
    {
        Header {
            magic_number: self.magic_number,
            major_version: self.major_version,
            minor_version: self.minor_version,
            uuid: self.uuid,
            entry_count: self.entry_count,
            cluster_count: self.cluster_count,
            path_ptr_pos: self.path_ptr_pos,
            title_ptr_pos: self.title_ptr_pos,
            cluster_ptr_pos: self.cluster_ptr_pos,
            mime_list_pos: self.mime_list_pos,
            main_page: self.main_page,
            layout_page: self.layout_page,
            checksum_pos: self.checksum_pos,
        }
    }
}

/// The two-byte number at `off`.
pub open spec fn u16_field(buf: Seq<u8>, off: int) -> u16 {
    crate::util::le_value(buf.subrange(off, off + 2)) as u16
}

/// The four-byte number at `off`.
pub open spec fn u32_field(buf: Seq<u8>, off: int) -> u32 {
    crate::util::le_value(buf.subrange(off, off + 4)) as u32
}

/// The eight-byte number at `off`.
pub open spec fn u64_field(buf: Seq<u8>, off: int) -> u64 {
    crate::util::le_value(buf.subrange(off, off + 8)) as u64
}

/// The page that a stored index names.
pub open spec fn page_of(raw: u32) -> Option<u32> {
    if raw == U32_ABSENT {
        None
    } else {
        Some(raw)
    }
}

/// What parsing a header from the start of `buf` gives.
pub open spec fn header_of(buf: Seq<u8>) -> Result<HeaderView, ErrorView> {
    if buf.len() < HEADER_SIZE {
        Err(ErrorView::TruncatedHeader(buf.len() as int))
    } else if u32_field(buf, 0) != ZIM_MAGIC {
        Err(ErrorView::InvalidMagic(u32_field(buf, 0) as int))
    } else if u16_field(buf, 4) != 5 && u16_field(buf, 4) != 6 {
        Err(ErrorView::UnsupportedVersion(u16_field(buf, 4) as int))
    } else if u64_field(buf, 56) != HEADER_SIZE {
        Err(
            ErrorView::InvalidHeader {
                field: "mime_list_pos"@,
                reason: "expected 80, got "@ + crate::text::decimal(u64_field(buf, 56) as nat),
            },
        )
    } else {
        Ok(
            HeaderView {
                magic_number: u32_field(buf, 0),
                major_version: u16_field(buf, 4),
                minor_version: u16_field(buf, 6),
                uuid: buf.subrange(8, 24),
                entry_count: u32_field(buf, 24),
                cluster_count: u32_field(buf, 28),
                path_ptr_pos: u64_field(buf, 32),
                title_ptr_pos: u64_field(buf, 40),
                cluster_ptr_pos: u64_field(buf, 48),
                mime_list_pos: u64_field(buf, 56),
                main_page: page_of(u32_field(buf, 64)),
                layout_page: page_of(u32_field(buf, 68)),
                checksum_pos: u64_field(buf, 72),
            },
        )
    }
}

fn page(raw: u32) -> (page: Option<u32>)
    ensures
        page == page_of(raw),
{
    if raw == U32_ABSENT {
        None
    } else {
        Some(raw)
    }
}

fn uuid_at(buf: &[u8], off: usize) -> (uuid: [u8; 16])
    requires
        off + 16 <= buf@.len(),
    ensures
        uuid@ == buf@.subrange(off as int, off + 16),
{
    let mut uuid: [u8; 16] = [0u8; 16];
    let mut i: usize = 0;
    while i < 16
        invariant
            i <= 16,
            off + 16 <= buf.len(),
            uuid@.len() == 16,
            forall|j: int| 0 <= j < i ==> uuid@[j] == buf@[off + j],
        decreases 16 - i,
    {
        uuid[i] = buf[off + i];
        i = i + 1;
    }
    assert(uuid@ =~= buf@.subrange(off as int, off + 16));
    uuid
}

impl Header {
    /// Parses the header at the start of `buf`.
    pub fn parse(buf: &[u8]) -> (res: Result<Header, Error>)
        ensures
            crate::error::outcome(res) == header_of(buf@),
    {
        if buf.len() < HEADER_SIZE {
            return Err(Error::TruncatedHeader(buf.len() as u64));
        }
        let magic_number: u32 = read_u32_le(buf, 0, "magic_number")?;
        if magic_number != ZIM_MAGIC {
            return Err(Error::InvalidMagic(magic_number));
        }
        let major_version: u16 = read_u16_le(buf, 4, "major_version")?;
        if major_version != 5 && major_version != 6 {
            return Err(Error::UnsupportedVersion(major_version));
        }
        let minor_version: u16 = read_u16_le(buf, 6, "minor_version")?;
        let uuid: [u8; 16] = uuid_at(buf, 8);
        let entry_count: u32 = read_u32_le(buf, 24, "entry_count")?;
        let cluster_count: u32 = read_u32_le(buf, 28, "cluster_count")?;
        let path_ptr_pos: u64 = read_u64_le(buf, 32, "path_ptr_pos")?;
        let title_ptr_pos: u64 = read_u64_le(buf, 40, "title_ptr_pos")?;
        let cluster_ptr_pos: u64 = read_u64_le(buf, 48, "cluster_ptr_pos")?;
        let mime_list_pos: u64 = read_u64_le(buf, 56, "mime_list_pos")?;
        if mime_list_pos != HEADER_SIZE as u64 {
            let mut reason: String = "expected 80, got ".to_owned();
            push_decimal(&mut reason, mime_list_pos);
            return Err(Error::InvalidHeader { field: "mime_list_pos", reason });
        }
        let main_page_raw: u32 = read_u32_le(buf, 64, "main_page")?;
        let layout_page_raw: u32 = read_u32_le(buf, 68, "layout_page")?;
        let checksum_pos: u64 = read_u64_le(buf, 72, "checksum_pos")?;
        Ok(
            Header {
                magic_number,
                major_version,
                minor_version,
                uuid,
                entry_count,
                cluster_count,
                path_ptr_pos,
                title_ptr_pos,
                cluster_ptr_pos,
                mime_list_pos,
                main_page: page(main_page_raw),
                layout_page: page(layout_page_raw),
                checksum_pos,
            },
        )
    }
}

/// The bytes of `uuid` from `from` up to `to`, two lower-case hexadecimal
/// digits each.
pub open spec fn hex_run(uuid: Seq<u8>, from: int, to: int) -> Seq<char>
    decreases to - from,
{
    if from >= to {
        Seq::empty()
    } else {
        hex_run(uuid, from, to - 1) + crate::text::lower_hex_byte(uuid[to - 1])
    }
}

/// The usual text of a UUID: five groups of hexadecimal digits with hyphens
/// between them.
pub open spec fn uuid_text(uuid: Seq<u8>) -> Seq<char> {
    hex_run(uuid, 0, 4) + "-"@ + hex_run(uuid, 4, 6) + "-"@ + hex_run(uuid, 6, 8) + "-"@ + hex_run(
        uuid,
        8,
        10,
    ) + "-"@ + hex_run(uuid, 10, 16)
}

fn push_hex_run(out: &mut String, uuid: &[u8; 16], from: usize, to: usize)
    requires
        from <= to <= 16,
    ensures
        final(out)@ == old(out)@ + hex_run(uuid@, from as int, to as int),
{
    let mut i: usize = from;
    assert(out@ =~= old(out)@ + hex_run(uuid@, from as int, from as int));
    while i < to
        invariant
            from <= i <= to <= 16,
            out@ == old(out)@ + hex_run(uuid@, from as int, i as int),
        decreases to - i,
    {
        push_lower_hex_byte(out, uuid[i]);
        i = i + 1;
        assert(out@ =~= old(out)@ + hex_run(uuid@, from as int, i as int));
    }
}

/// The usual text of a UUID: 8, 4, 4, 4 and 12 lower-case hexadecimal digits
/// with hyphens between them.
pub fn format_uuid(uuid: &[u8; 16]) -> (text: String)
    ensures
        text@ == uuid_text(uuid@),
{
    let mut out: String = String::new();
    push_hex_run(&mut out, uuid, 0, 4);
    out.append("-");
    push_hex_run(&mut out, uuid, 4, 6);
    out.append("-");
    push_hex_run(&mut out, uuid, 6, 8);
    out.append("-");
    push_hex_run(&mut out, uuid, 8, 10);
    out.append("-");
    push_hex_run(&mut out, uuid, 10, 16);
    assert(out@ =~= uuid_text(uuid@));
    out
}

/// The entry index that is stored for a page.
pub open spec fn stored_page(page: Option<u32>) -> u32 {
    match page {
        Some(idx) => idx,
        None => U32_ABSENT,
    }
}

/// A header as it is stored.
pub open spec fn header_bytes(header: HeaderView) -> Seq<u8> {
    crate::util::le_bytes(header.magic_number as nat, 4)
        + crate::util::le_bytes(header.major_version as nat, 2)
        + crate::util::le_bytes(header.minor_version as nat, 2) + header.uuid
        + crate::util::le_bytes(header.entry_count as nat, 4)
        + crate::util::le_bytes(header.cluster_count as nat, 4)
        + crate::util::le_bytes(header.path_ptr_pos as nat, 8)
        + crate::util::le_bytes(header.title_ptr_pos as nat, 8)
        + crate::util::le_bytes(header.cluster_ptr_pos as nat, 8)
        + crate::util::le_bytes(header.mime_list_pos as nat, 8)
        + crate::util::le_bytes(stored_page(header.main_page) as nat, 4)
        + crate::util::le_bytes(stored_page(header.layout_page) as nat, 4)
        + crate::util::le_bytes(header.checksum_pos as nat, 8)
}

/// Whether a header can be stored: it has the magic number, a supported
/// version, a UUID of 16 bytes and the MIME list right behind it, and its
/// pages are not at the index that stands for an absent page.
pub open spec fn is_storable(header: HeaderView) -> bool {
    &&& header.magic_number == ZIM_MAGIC
    &&& header.major_version == 5 || header.major_version == 6
    &&& header.uuid.len() == 16
    &&& header.mime_list_pos == HEADER_SIZE
    &&& header.main_page != Some(U32_ABSENT)
    &&& header.layout_page != Some(U32_ABSENT)
}

/// Writing a header and parsing it gives the header back, whatever follows.
pub proof fn header_is_read_back(header: HeaderView, rest: Seq<u8>)
    requires
        is_storable(header),
    ensures
        header_bytes(header).len() == HEADER_SIZE,
        header_of(header_bytes(header) + rest) == Ok::<HeaderView, ErrorView>(header),
{
    let buf = header_bytes(header) + rest;
    lemma_stored_number(header.magic_number as nat, 4);
    lemma_stored_number(header.major_version as nat, 2);
    lemma_stored_number(header.minor_version as nat, 2);
    lemma_stored_number(header.entry_count as nat, 4);
    lemma_stored_number(header.cluster_count as nat, 4);
    lemma_stored_number(header.path_ptr_pos as nat, 8);
    lemma_stored_number(header.title_ptr_pos as nat, 8);
    lemma_stored_number(header.cluster_ptr_pos as nat, 8);
    lemma_stored_number(header.mime_list_pos as nat, 8);
    lemma_stored_number(stored_page(header.main_page) as nat, 4);
    lemma_stored_number(stored_page(header.layout_page) as nat, 4);
    lemma_stored_number(header.checksum_pos as nat, 8);
    assert(buf.subrange(0, 4) =~= crate::util::le_bytes(header.magic_number as nat, 4));
    assert(buf.subrange(4, 6) =~= crate::util::le_bytes(header.major_version as nat, 2));
    assert(buf.subrange(6, 8) =~= crate::util::le_bytes(header.minor_version as nat, 2));
    assert(buf.subrange(8, 24) =~= header.uuid);
    assert(buf.subrange(24, 28) =~= crate::util::le_bytes(header.entry_count as nat, 4));
    assert(buf.subrange(28, 32) =~= crate::util::le_bytes(header.cluster_count as nat, 4));
    assert(buf.subrange(32, 40) =~= crate::util::le_bytes(header.path_ptr_pos as nat, 8));
    assert(buf.subrange(40, 48) =~= crate::util::le_bytes(header.title_ptr_pos as nat, 8));
    assert(buf.subrange(48, 56) =~= crate::util::le_bytes(header.cluster_ptr_pos as nat, 8));
    assert(buf.subrange(56, 64) =~= crate::util::le_bytes(header.mime_list_pos as nat, 8));
    assert(buf.subrange(64, 68) =~= crate::util::le_bytes(
        stored_page(header.main_page) as nat,
        4,
    ));
    assert(buf.subrange(68, 72) =~= crate::util::le_bytes(
        stored_page(header.layout_page) as nat,
        4,
    ));
    assert(buf.subrange(72, 80) =~= crate::util::le_bytes(header.checksum_pos as nat, 8));
}

/// A header that parses can be stored, and writing it gives the bytes back
/// that it was parsed from.
pub proof fn parsed_header_is_written_back(buf: Seq<u8>)
    requires
        header_of(buf) is Ok,
    ensures
        is_storable(header_of(buf)->Ok_0),
        header_bytes(header_of(buf)->Ok_0) == buf.take(HEADER_SIZE as int),
{
    lemma_parsed_number(buf.subrange(0, 4), 4);
    lemma_parsed_number(buf.subrange(4, 6), 2);
    lemma_parsed_number(buf.subrange(6, 8), 2);
    lemma_parsed_number(buf.subrange(24, 28), 4);
    lemma_parsed_number(buf.subrange(28, 32), 4);
    lemma_parsed_number(buf.subrange(32, 40), 8);
    lemma_parsed_number(buf.subrange(40, 48), 8);
    lemma_parsed_number(buf.subrange(48, 56), 8);
    lemma_parsed_number(buf.subrange(56, 64), 8);
    lemma_parsed_number(buf.subrange(64, 68), 4);
    lemma_parsed_number(buf.subrange(68, 72), 4);
    lemma_parsed_number(buf.subrange(72, 80), 8);
    assert(header_bytes(header_of(buf)->Ok_0) =~= buf.take(HEADER_SIZE as int));
}

proof fn lemma_parsed_number(bytes: Seq<u8>, width: nat)
    requires
        bytes.len() == width,
        width == 2 || width == 4 || width == 8,
    ensures
        crate::util::le_bytes(crate::util::le_value(bytes), width) == bytes,
        width == 2 ==> crate::util::le_value(bytes) <= u16::MAX,
        width == 4 ==> crate::util::le_value(bytes) <= u32::MAX,
        crate::util::le_value(bytes) <= u64::MAX,
{
    crate::util::le_limits();
    crate::util::le_value_is_bounded(bytes, 0, 0);
    crate::util::le_bytes_of_le_value(bytes);
}

proof fn lemma_stored_number(n: nat, width: nat)
    requires
        width == 2 && n <= u16::MAX || width == 4 && n <= u32::MAX || width == 8 && n <= u64::MAX,
    ensures
        crate::util::le_bytes(n, width).len() == width,
        crate::util::le_value(crate::util::le_bytes(n, width)) == n,
{
    crate::util::le_limits();
    crate::util::le_value_is_bounded(Seq::empty(), n, width);
    crate::util::le_value_of_le_bytes(n, width);
}

/// The text of a UUID has 36 characters, with hyphens behind the 8th, 12th,
/// 16th and 20th digit.
pub proof fn uuid_text_has_five_groups(uuid: Seq<u8>)
    ensures
        uuid_text(uuid).len() == 36,
        uuid_text(uuid)[8] == '-',
        uuid_text(uuid)[13] == '-',
        uuid_text(uuid)[18] == '-',
        uuid_text(uuid)[23] == '-',
{
    reveal_strlit("-");
    lemma_hex_run_len(uuid, 0, 4);
    lemma_hex_run_len(uuid, 4, 6);
    lemma_hex_run_len(uuid, 6, 8);
    lemma_hex_run_len(uuid, 8, 10);
    lemma_hex_run_len(uuid, 10, 16);
}

proof fn lemma_hex_run_len(uuid: Seq<u8>, from: int, to: int)
    requires
        from <= to,
    ensures
        hex_run(uuid, from, to).len() == 2 * (to - from),
    decreases to - from,
{
    if from < to {
        lemma_hex_run_len(uuid, from, to - 1);
    }
}

/// A header parses exactly if the buffer holds 80 bytes with the magic number,
/// version 5 or 6, and the MIME list right behind the header; and each of its
/// fields is the number that stands at its offset.
pub proof fn header_fields_stand_at_their_offsets(buf: Seq<u8>)
    ensures
        header_of(buf) is Ok <==> {
            &&& buf.len() >= 80
            &&& crate::util::le_value(buf.subrange(0, 4)) == 0x044D_495A
            &&& crate::util::le_value(buf.subrange(4, 6)) == 5 || crate::util::le_value(
                buf.subrange(4, 6),
            ) == 6
            &&& crate::util::le_value(buf.subrange(56, 64)) == 80
        },
        header_of(buf) matches Ok(header) ==> {
            &&& header.magic_number == crate::util::le_value(buf.subrange(0, 4))
            &&& header.major_version == crate::util::le_value(buf.subrange(4, 6))
            &&& header.minor_version == crate::util::le_value(buf.subrange(6, 8))
            &&& header.uuid == buf.subrange(8, 24)
            &&& header.entry_count == crate::util::le_value(buf.subrange(24, 28))
            &&& header.cluster_count == crate::util::le_value(buf.subrange(28, 32))
            &&& header.path_ptr_pos == crate::util::le_value(buf.subrange(32, 40))
            &&& header.title_ptr_pos == crate::util::le_value(buf.subrange(40, 48))
            &&& header.cluster_ptr_pos == crate::util::le_value(buf.subrange(48, 56))
            &&& header.mime_list_pos == crate::util::le_value(buf.subrange(56, 64))
            &&& header.checksum_pos == crate::util::le_value(buf.subrange(72, 80))
            &&& match header.main_page {
                Some(idx) => idx == crate::util::le_value(buf.subrange(64, 68)) && idx
                    != 0xFFFF_FFFF,
                None => crate::util::le_value(buf.subrange(64, 68)) == 0xFFFF_FFFF,
            }
            &&& match header.layout_page {
                Some(idx) => idx == crate::util::le_value(buf.subrange(68, 72)) && idx
                    != 0xFFFF_FFFF,
                None => crate::util::le_value(buf.subrange(68, 72)) == 0xFFFF_FFFF,
            }
        },
{
    if buf.len() >= 80 {
        lemma_parsed_number(buf.subrange(0, 4), 4);
        lemma_parsed_number(buf.subrange(4, 6), 2);
        lemma_parsed_number(buf.subrange(6, 8), 2);
        lemma_parsed_number(buf.subrange(24, 28), 4);
        lemma_parsed_number(buf.subrange(28, 32), 4);
        lemma_parsed_number(buf.subrange(32, 40), 8);
        lemma_parsed_number(buf.subrange(40, 48), 8);
        lemma_parsed_number(buf.subrange(48, 56), 8);
        lemma_parsed_number(buf.subrange(56, 64), 8);
        lemma_parsed_number(buf.subrange(64, 68), 4);
        lemma_parsed_number(buf.subrange(68, 72), 4);
        lemma_parsed_number(buf.subrange(72, 80), 8);
    }
}

/// A header that does not parse is reported by the first thing that is wrong
/// with it: its length, its magic number, its version, or the position of the
/// MIME list; and the error names what was found instead.
pub proof fn header_error_names_what_was_found(buf: Seq<u8>)
    ensures
        header_of(buf) matches Err(error) ==> match error {
            ErrorView::TruncatedHeader(len) => buf.len() < 80 && len == buf.len(),
            ErrorView::InvalidMagic(magic) => buf.len() >= 80 && magic == crate::util::le_value(
                buf.subrange(0, 4),
            ) && magic != 0x044D_495A,
            ErrorView::UnsupportedVersion(version) => buf.len() >= 80 && version
                == crate::util::le_value(buf.subrange(4, 6)) && version != 5 && version != 6
                && crate::util::le_value(buf.subrange(0, 4)) == 0x044D_495A,
            ErrorView::InvalidHeader { field, reason } => {
                &&& buf.len() >= 80
                &&& field == "mime_list_pos"@
                &&& crate::text::decimal(
                    crate::util::le_value(buf.subrange(56, 64)),
                ).is_suffix_of(reason)
                &&& crate::util::le_value(buf.subrange(56, 64)) != 80
                &&& crate::util::le_value(buf.subrange(0, 4)) == 0x044D_495A
                &&& crate::util::le_value(buf.subrange(4, 6)) == 5 || crate::util::le_value(
                    buf.subrange(4, 6),
                ) == 6
            },
            _ => false,
        },
{
    if buf.len() >= 80 {
        lemma_parsed_number(buf.subrange(0, 4), 4);
        lemma_parsed_number(buf.subrange(4, 6), 2);
        lemma_parsed_number(buf.subrange(56, 64), 8);
        let found = crate::text::decimal(crate::util::le_value(buf.subrange(56, 64)));
        let reason = "expected 80, got "@ + found;
        assert(reason.skip(reason.len() - found.len()) =~= found);
    }
}

/// In the text of a UUID, two digits without capital letters spell each byte, in
/// the order of the bytes; a hyphen stands before the bytes 4, 6, 8 and 10.
pub proof fn uuid_text_spells_the_bytes(uuid: Seq<u8>, i: int)
    requires
        0 <= i < 16,
    ensures
        ({
            let at = 2 * i + if i < 4 {
                0int
            } else if i < 6 {
                1
            } else if i < 8 {
                2
            } else if i < 10 {
                3
            } else {
                4
            };
            let high = crate::text::digit_value(uuid_text(uuid)[at]);
            let low = crate::text::digit_value(uuid_text(uuid)[at + 1]);
            &&& high * 16 + low == uuid[i]
            &&& !('A' <= uuid_text(uuid)[at] <= 'F')
            &&& !('A' <= uuid_text(uuid)[at + 1] <= 'F')
        }),
{
    reveal_strlit("-");
    crate::text::byte_digits_spell_the_byte(uuid[i]);
    lemma_hex_run_len(uuid, 0, 4);
    lemma_hex_run_len(uuid, 4, 6);
    lemma_hex_run_len(uuid, 6, 8);
    lemma_hex_run_len(uuid, 8, 10);
    lemma_hex_run_len(uuid, 10, 16);
    if i < 4 {
        lemma_hex_run_at(uuid, 0, 4, i);
    } else if i < 6 {
        lemma_hex_run_at(uuid, 4, 6, i);
    } else if i < 8 {
        lemma_hex_run_at(uuid, 6, 8, i);
    } else if i < 10 {
        lemma_hex_run_at(uuid, 8, 10, i);
    } else {
        lemma_hex_run_at(uuid, 10, 16, i);
    }
}

proof fn lemma_hex_run_at(uuid: Seq<u8>, from: int, to: int, i: int)
    requires
        from <= i < to,
    ensures
        hex_run(uuid, from, to).len() == 2 * (to - from),
        hex_run(uuid, from, to)[2 * (i - from)] == crate::text::lower_hex_byte(uuid[i])[0],
        hex_run(uuid, from, to)[2 * (i - from) + 1] == crate::text::lower_hex_byte(uuid[i])[1],
    decreases to - from,
{
    lemma_hex_run_len(uuid, from, to - 1);
    if i < to - 1 {
        lemma_hex_run_at(uuid, from, to - 1, i);
    }
}

} // verus!
