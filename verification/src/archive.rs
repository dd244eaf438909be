//! Archives: the bytes of a file with its parsed header and MIME types.
use vstd::prelude::*;
use vstd::string::*;

use crate::error::{outcome, Error, ErrorView};
use crate::header::{Header, HeaderView, HEADER_SIZE};
use crate::mime::parse_mime_table;
use crate::namespace::{detect_namespace_mode, NamespaceMode};
use crate::split::is_split_archive_path;
use crate::text::{push_decimal, push_wide_decimal};

verus! {

/// Whether to verify the archive's MD5 checksum when opening.
#[non_exhaustive]
#[derive(Debug, Clone, Copy, PartialEq, Eq, Structural)]
pub enum VerifyChecksum {
    Yes,
    Skip,
}

/// Configuration for opening a ZIM archive.
#[non_exhaustive]
#[derive(Debug)]
pub struct ArchiveOptions {
    /// Whether to verify the MD5 checksum on open.
    ///
    /// Currently ignored: opening does not read the checksum. The field is
    /// accepted so that callers need not change once it is enforced.
    pub verify_checksum: VerifyChecksum,
    /// Maximum number of decompressed clusters to hold in a cache.
    ///
    /// Currently unused: clusters are decompressed on each access.
    pub cluster_cache_size: usize,
}

impl Default for ArchiveOptions {
    fn default() -> (options: ArchiveOptions)
        ensures
            options.verify_checksum == VerifyChecksum::Yes,
            options.cluster_cache_size == 8,
    {
        ArchiveOptions { verify_checksum: VerifyChecksum::Yes, cluster_cache_size: 8 }
    }
}

impl Clone for ArchiveOptions {
    fn clone(&self) -> (options: ArchiveOptions)
        ensures
            options == *self,
    {
        ArchiveOptions {
            verify_checksum: self.verify_checksum,
            cluster_cache_size: self.cluster_cache_size,
        }
    }
}

/// A handle to an open ZIM archive.
///
/// It borrows the bytes of the file, which may be a memory map, and reads
/// directory entries, clusters and blobs from them on demand. It holds no
/// mutable state and can be shared between threads.
pub struct Archive<'a> {
    data: &'a [u8],
    path: String,
    header: Header,
    mime_types: Vec<String>,
    namespace_mode: NamespaceMode,
}

/// The contents of an [`Archive`].
pub struct ArchiveView {
    /// All bytes of the file.
    pub data: Seq<u8>,
    /// The path that it was opened from.
    pub path: Seq<char>,
    pub header: HeaderView,
    pub mime_types: Seq<Seq<char>>,
    pub namespace_mode: NamespaceMode,
}

/// The error of an offset that lies outside a file of this length.
pub open spec fn bounds_error(offset: int, file_len: int, field: Seq<char>) -> Option<ErrorView> {
    if offset >= file_len {
        Some(crate::util::out_of_bounds(offset, field))
    } else {
        None
    }
}

/// What is wrong with the offsets of a header in a file of this length, if
/// anything: the lists and the checksum start inside the file, and the
/// checksum is its last 16 bytes.
pub open spec fn offsets_error(header: HeaderView, file_len: int) -> Option<ErrorView> {
    if header.path_ptr_pos >= file_len {
        bounds_error(header.path_ptr_pos as int, file_len, "path_ptr_pos"@)
    } else if header.title_ptr_pos >= file_len {
        bounds_error(header.title_ptr_pos as int, file_len, "title_ptr_pos"@)
    } else if header.cluster_ptr_pos >= file_len {
        bounds_error(header.cluster_ptr_pos as int, file_len, "cluster_ptr_pos"@)
    } else if header.checksum_pos >= file_len {
        bounds_error(header.checksum_pos as int, file_len, "checksum_pos"@)
    } else if header.checksum_pos + 16 != file_len {
        Some(
            ErrorView::InvalidHeader {
                field: "checksum_pos"@,
                reason: "expected checksum_pos + 16 == file length "@ + crate::text::decimal(
                    file_len as nat,
                ) + ", got "@ + crate::text::decimal((header.checksum_pos + 16) as nat),
            },
        )
    } else {
        None
    }
}

/// What opening a file with these bytes gives.
pub open spec fn archive_of(path: Seq<char>, data: Seq<u8>) -> Result<ArchiveView, ErrorView> {
    if data.len() < HEADER_SIZE {
        Err(ErrorView::TruncatedHeader(data.len() as int))
    } else {
        match crate::header::header_of(data.take(HEADER_SIZE as int)) {
            Err(error) => Err(error),
            Ok(header) => match offsets_error(header, data.len() as int) {
                Some(error) => Err(error),
                None => match crate::mime::mime_table_at(data, HEADER_SIZE as int) {
                    Err(error) => Err(error),
                    Ok(mime_types) => Ok(
                        ArchiveView {
                            data,
                            path,
                            header,
                            mime_types,
                            namespace_mode: crate::namespace::namespace_mode_of(header),
                        },
                    ),
                },
            },
        }
    }
}

/// What opening a file gives, given whether its path names one part of a split
/// archive.
pub open spec fn open_outcome(path: Seq<char>, data: Seq<u8>, split: bool) -> Result<
    ArchiveView,
    ErrorView,
> {
    if split {
        Err(ErrorView::SplitArchiveNotSupported)
    } else {
        archive_of(path, data)
    }
}

/// Whether opening a file can have this outcome. It is the outcome for a path
/// that does, or does not, name one part of a split archive; which of the two,
/// the path decides where all platforms read it alike, and the platform
/// elsewhere.
pub open spec fn opens_as(
    path: Seq<char>,
    data: Seq<u8>,
    outcome: Result<ArchiveView, ErrorView>,
) -> bool {
    match crate::split::split_verdict(path) {
        Some(split) => outcome == open_outcome(path, data, split),
        None => outcome == open_outcome(path, data, true) || outcome == open_outcome(
            path,
            data,
            false,
        ),
    }
}

/// Whether opening a file with these options can have this outcome. The
/// options have no say.
pub open spec fn opens_with_options_as(
    path: Seq<char>,
    data: Seq<u8>,
    options: ArchiveOptions,
    outcome: Result<ArchiveView, ErrorView>,
) -> bool {
    opens_as(path, data, outcome)
}

impl ArchiveView {
    /// Whether this is what opening its own bytes gives, and the bytes can be
    /// addressed.
    pub open spec fn valid(self) -> bool {
        &&& archive_of(self.path, self.data) == Ok::<ArchiveView, ErrorView>(self)
        &&& self.data.len() <= usize::MAX
    }
}

impl<'a> View for Archive<'a> {
    type V = ArchiveView;

    closed spec fn view(&self) -> ArchiveView {
        ArchiveView {
            data: self.data@,
            path: self.path@,
            header: self.header@,
            mime_types: self.mime_types.deep_view(),
            namespace_mode: self.namespace_mode,
        }
    }
}

impl<'a> DeepView for Archive<'a> {
    type V = ArchiveView;

    open spec fn deep_view(&self) -> ArchiveView {
        self@
    }
}

/// Checks that `offset` lies inside a file of this length.
fn check_in_bounds(offset: u64, file_len: u64, field: &'static str) -> (res: Result<(), Error>)
    ensures
        match res {
            Ok(()) => bounds_error(offset as int, file_len as int, field@) is None,
            Err(error) => bounds_error(offset as int, file_len as int, field@) == Some(error@),
        },
{
    if offset >= file_len {
        return Err(Error::OffsetOutOfBounds { offset, field });
    }
    Ok(())
}

/// Checks the offsets of a header against the length of the file.
pub fn validate_offsets(header: &Header, file_len: u64) -> (res: Result<(), Error>)
    ensures
        match res {
            Ok(()) => offsets_error(header@, file_len as int) is None,
            Err(error) => offsets_error(header@, file_len as int) == Some(error@),
        },
{
    check_in_bounds(header.path_ptr_pos, file_len, "path_ptr_pos")?;
    check_in_bounds(header.title_ptr_pos, file_len, "title_ptr_pos")?;
    check_in_bounds(header.cluster_ptr_pos, file_len, "cluster_ptr_pos")?;
    check_in_bounds(header.checksum_pos, file_len, "checksum_pos")?;
    let end: u128 = header.checksum_pos as u128 + 16;
    if end != file_len as u128 {
        let mut reason: String = "expected checksum_pos + 16 == file length ".to_owned();
        push_decimal(&mut reason, file_len);
        reason.append(", got ");
        push_wide_decimal(&mut reason, end);
        return Err(Error::InvalidHeader { field: "checksum_pos", reason });
    }
    Ok(())
}

impl<'a> Archive<'a> {
    #[verifier::type_invariant]
    spec fn is_open(self) -> bool {
        self@.valid()
    }

    /// Opens an archive, given the bytes of the file, with default options.
    pub fn open(path: &str, data: &'a [u8]) -> (res: Result<Archive<'a>, Error>)
        ensures
            opens_as(path@, data@, outcome(res)),
    {
        Archive::open_with_options(path, data, ArchiveOptions::default())
    }

    /// Opens an archive, given the bytes of the file, with explicit options.
    pub fn open_with_options(path: &str, data: &'a [u8], _opts: ArchiveOptions) -> (res: Result<
        Archive<'a>,
        Error,
    >)
        ensures
            opens_with_options_as(path@, data@, _opts, outcome(res)),
    {
        let split: bool = is_split_archive_path(path);
        Archive::open_unless_split(path, data, split)
    }

    /// Opens an archive, given the bytes of the file and whether its path
    /// names one part of a split archive.
    pub fn open_unless_split(path: &str, data: &'a [u8], split: bool) -> (res: Result<
        Archive<'a>,
        Error,
    >)
        ensures
            outcome(res) == open_outcome(path@, data@, split),
    {
        if split {
            return Err(Error::SplitArchiveNotSupported);
        }
        if data.len() < HEADER_SIZE {
            return Err(Error::TruncatedHeader(data.len() as u64));
        }
        let header: Header = Header::parse(&data[0..HEADER_SIZE])?;
        validate_offsets(&header, data.len() as u64)?;
        let mime_types: Vec<String> = parse_mime_table(data, header.mime_list_pos)?;
        let namespace_mode: NamespaceMode = detect_namespace_mode(&header);
        Ok(Archive { data, path: path.to_owned(), header, mime_types, namespace_mode })
    }

    /// All bytes of the file.
    pub fn data(&self) -> (data: &'a [u8])
        ensures
            data@ == self@.data,
            self@.valid(),
    {
        proof {
            use_type_invariant(self);
        }
        self.data
    }

    /// The header of the archive.
    pub fn header(&self) -> (header: &Header)
        ensures
            header@ == self@.header,
            self@.valid(),
    {
        proof {
            use_type_invariant(self);
        }
        &self.header
    }

    /// The path that the archive was opened from.
    pub fn path(&self) -> (path: &str)
        ensures
            path@ == self@.path,
    {
        self.path.as_str()
    }

    /// Total number of directory entries.
    pub fn entry_count(&self) -> (count: u32)
        ensures
            count == self@.header.entry_count,
    {
        self.header.entry_count
    }

    /// Total number of clusters.
    pub fn cluster_count(&self) -> (count: u32)
        ensures
            count == self@.header.cluster_count,
    {
        self.header.cluster_count
    }

    /// The MIME types in index order.
    pub fn mime_types(&self) -> (types: &[String])
        ensures
            types.deep_view() == self@.mime_types,
    {
        self.mime_types.as_slice()
    }

    /// Which namespace convention the archive uses.
    pub fn namespace_mode(&self) -> (mode: NamespaceMode)
        ensures
            mode == self@.namespace_mode,
    {
        self.namespace_mode
    }

    /// Length of the file in bytes.
    pub fn mmap_len(&self) -> (len: usize)
        ensures
            len == self@.data.len(),
    {
        self.data.len()
    }
}

/// In an archive that was opened, the version is supported, the MIME list
/// follows the header, the lists start inside the file, and the checksum is
/// its last 16 bytes.
pub proof fn open_archive_is_consistent(archive: ArchiveView)
    requires
        archive.valid(),
    ensures
        archive.data.len() >= HEADER_SIZE,
        archive.header.major_version == 5 || archive.header.major_version == 6,
        archive.header.mime_list_pos == HEADER_SIZE,
        archive.header.path_ptr_pos < archive.data.len(),
        archive.header.title_ptr_pos < archive.data.len(),
        archive.header.cluster_ptr_pos < archive.data.len(),
        archive.header.checksum_pos + 16 == archive.data.len(),
        archive.namespace_mode == crate::namespace::namespace_mode_of(archive.header),
{
}

/// Whatever the path and the options: where opening gives an archive, it holds
/// the bytes, the path, the header and the MIME types that are in the file, it
/// is consistent, and the path is not one that every platform takes for one
/// part of a split archive.
pub proof fn opened_archive_holds_the_file(
    path: Seq<char>,
    data: Seq<u8>,
    options: ArchiveOptions,
    archive: ArchiveView,
)
    requires
        opens_with_options_as(path, data, options, Ok(archive)),
    ensures
        archive_of(path, data) == Ok::<ArchiveView, ErrorView>(archive),
        archive.path == path,
        archive.data == data,
        data.len() >= HEADER_SIZE,
        crate::header::header_of(data.take(HEADER_SIZE as int)) == Ok::<HeaderView, ErrorView>(
            archive.header,
        ),
        crate::mime::mime_table_at(data, HEADER_SIZE as int) == Ok::<Seq<Seq<char>>, ErrorView>(
            archive.mime_types,
        ),
        archive.namespace_mode == crate::namespace::namespace_mode_of(archive.header),
        archive.header.major_version == 5 || archive.header.major_version == 6,
        archive.header.mime_list_pos == HEADER_SIZE,
        archive.header.path_ptr_pos < data.len(),
        archive.header.title_ptr_pos < data.len(),
        archive.header.cluster_ptr_pos < data.len(),
        archive.header.checksum_pos + 16 == data.len(),
        crate::split::split_verdict(path) != Some(true),
{
}

/// Writing a header, a MIME type list and a body and opening the result gives
/// an archive with that header and those types, if the header can be stored
/// and its offsets fit the length.
pub proof fn written_archive_is_opened(
    path: Seq<char>,
    header: HeaderView,
    mime_types: Seq<Seq<char>>,
    body: Seq<u8>,
)
    requires
        crate::header::is_storable(header),
        forall|i: int|
            0 <= i < mime_types.len() ==> #[trigger] mime_types[i].len() > 0
                && !mime_types[i].contains('\0'),
        ({
            let data = crate::header::header_bytes(header) + crate::mime::mime_table_bytes(
                mime_types,
            ) + body;
            offsets_error(header, data.len() as int) is None
        }),
    ensures
        ({
            let data = crate::header::header_bytes(header) + crate::mime::mime_table_bytes(
                mime_types,
            ) + body;
            archive_of(path, data) == Ok::<ArchiveView, ErrorView>(
                ArchiveView {
                    data,
                    path,
                    header,
                    mime_types,
                    namespace_mode: crate::namespace::namespace_mode_of(header),
                },
            )
        }),
{
    let start = crate::header::header_bytes(header);
    let data = start + crate::mime::mime_table_bytes(mime_types) + body;
    crate::header::header_is_read_back(header, Seq::empty());
    assert(data.take(HEADER_SIZE as int) =~= start + Seq::empty());
    crate::mime::mime_table_is_read_back(start, mime_types, body);
}

/// The options do not change what opening gives: the outcomes with any two are
/// the same, wherever all platforms read the path alike. Elsewhere they differ
/// at most in that the platform took the path for one part of a split archive.
pub proof fn options_do_not_matter(
    path: Seq<char>,
    data: Seq<u8>,
    first_options: ArchiveOptions,
    second_options: ArchiveOptions,
    first: Result<ArchiveView, ErrorView>,
    second: Result<ArchiveView, ErrorView>,
)
    requires
        opens_with_options_as(path, data, first_options, first),
        opens_with_options_as(path, data, second_options, second),
    ensures
        crate::split::split_verdict(path) is Some ==> first == second,
        first == second || first == Err::<ArchiveView, ErrorView>(
            ErrorView::SplitArchiveNotSupported,
        ) || second == Err::<ArchiveView, ErrorView>(ErrorView::SplitArchiveNotSupported),
        forall|outcome: Result<ArchiveView, ErrorView>|
            opens_with_options_as(path, data, first_options, outcome) == #[trigger] opens_with_options_as(
                path,
                data,
                second_options,
                outcome,
            ),
{
}

/// A file that is too short for a header is not opened, whatever it holds.
pub proof fn short_file_is_rejected(path: Seq<char>, data: Seq<u8>)
    requires
        data.len() < HEADER_SIZE,
    ensures
        archive_of(path, data) == Err::<ArchiveView, ErrorView>(
            ErrorView::TruncatedHeader(data.len() as int),
        ),
{
}

/// One part of a split archive is not opened, whatever it holds.
pub proof fn split_archive_is_rejected(path: Seq<char>, data: Seq<u8>)
    ensures
        open_outcome(path, data, true) == Err::<ArchiveView, ErrorView>(
            ErrorView::SplitArchiveNotSupported,
        ),
{
}

/// The offsets of a header are accepted exactly if the three lists start inside
/// the file and 16 bytes follow the start of the checksum. Otherwise the error
/// names the first that is wrong.
pub proof fn offsets_are_accepted_inside_the_file(header: HeaderView, file_len: int)
    ensures
        offsets_error(header, file_len) is None <==> {
            &&& header.path_ptr_pos < file_len
            &&& header.title_ptr_pos < file_len
            &&& header.cluster_ptr_pos < file_len
            &&& header.checksum_pos == file_len - 16
        },
        offsets_error(header, file_len) matches Some(ErrorView::OffsetOutOfBounds { offset, field })
            ==> {
            &&& offset >= file_len
            &&& field == "path_ptr_pos"@ && offset == header.path_ptr_pos || field
                == "title_ptr_pos"@ && offset == header.title_ptr_pos && header.path_ptr_pos
                < file_len || field == "cluster_ptr_pos"@ && offset == header.cluster_ptr_pos
                && header.path_ptr_pos < file_len && header.title_ptr_pos < file_len || field
                == "checksum_pos"@ && offset == header.checksum_pos && header.path_ptr_pos
                < file_len && header.title_ptr_pos < file_len && header.cluster_ptr_pos < file_len
        },
        offsets_error(header, file_len) matches Some(error) ==> error is OffsetOutOfBounds
            || error is InvalidHeader && header.path_ptr_pos < file_len && header.title_ptr_pos
            < file_len && header.cluster_ptr_pos < file_len && header.checksum_pos < file_len,
{
}

/// A file is opened exactly if its header parses, its offsets fit the length of
/// the file, and its MIME types parse.
pub proof fn file_is_opened_if_its_parts_are_right(path: Seq<char>, data: Seq<u8>)
    ensures
        archive_of(path, data) is Ok <==> {
            &&& data.len() >= 80
            &&& crate::header::header_of(data.take(80)) matches Ok(header) && header.path_ptr_pos
                < data.len() && header.title_ptr_pos < data.len() && header.cluster_ptr_pos
                < data.len() && header.checksum_pos + 16 == data.len()
            &&& crate::mime::mime_table_at(data, 80) is Ok
        },
{
}

/// A path that every platform takes for one part of a split archive is not
/// opened, and any other error, or an archive, comes from the bytes of the file
/// alone.
pub proof fn certain_part_is_rejected(
    path: Seq<char>,
    data: Seq<u8>,
    options: ArchiveOptions,
    outcome: Result<ArchiveView, ErrorView>,
)
    requires
        opens_with_options_as(path, data, options, outcome),
    ensures
        crate::split::split_verdict(path) == Some(true) ==> outcome == Err::<
            ArchiveView,
            ErrorView,
        >(ErrorView::SplitArchiveNotSupported),
        crate::split::split_verdict(path) == Some(false) ==> outcome == archive_of(path, data),
        outcome != Err::<ArchiveView, ErrorView>(ErrorView::SplitArchiveNotSupported) ==> outcome
            == archive_of(path, data),
{
}

} // verus!
