//! Directory entries: the records that name what an archive holds.
use vstd::prelude::*;
use vstd::string::*;

use crate::error::{outcome, Error, ErrorView};
use crate::text::{push_decimal, push_upper_hex};
use crate::util::{position, read_cstring, read_u16_le, read_u32_le};

verus! {

/// The MIME index that marks a redirect.
pub const MIME_REDIRECT: u16 = 0xFFFF;

/// The MIME index that marks a link target (deprecated).
pub const MIME_LINKTARGET: u16 = 0xFFFE;

/// The MIME index that marks a deleted entry (deprecated).
pub const MIME_DELETED: u16 = 0xFFFD;

/// Where the path of a content entry starts.
pub const CONTENT_PATH_OFFSET: usize = 16;

/// Where the path of a redirect starts.
pub const REDIRECT_PATH_OFFSET: usize = 12;

/// A directory entry: either a content entry pointing at a blob in a cluster,
/// or a redirect pointing at another entry.
///
/// Deprecated entries (link targets, deleted placeholders) are not represented
/// here: parsing returns `None` for them, and callers skip them.
#[non_exhaustive]
#[derive(Debug)]
pub enum Dirent {
    /// A content entry: path, title and location of its blob.
    Content(ContentEntry),
    /// A redirect entry: path, title and index of the target entry.
    Redirect(RedirectEntry),
}

/// A directory entry pointing at an actual piece of content.
#[derive(Debug)]
pub struct ContentEntry {
    /// Index into the archive's MIME table.
    pub mime_type_idx: u16,
    /// Single-character namespace (e.g. `C` in v6.1+, `A` in v5).
    pub namespace: char,
    /// Revision number, unused by most archives (typically `0`).
    pub revision: u32,
    /// Cluster holding this entry's blob.
    pub cluster_number: u32,
    /// Blob index within `cluster_number`.
    pub blob_number: u32,
    /// URL-safe path, unique within `namespace`.
    pub path: String,
    /// Human-readable title. Falls back to `path` when the stored title is
    /// empty.
    pub title: String,
}

/// A directory entry that redirects to another entry.
#[non_exhaustive]
#[derive(Debug)]
pub struct RedirectEntry {
    /// Namespace of this redirect (not of the target).
    pub namespace: char,
    /// Revision number, unused by most archives (typically `0`).
    pub revision: u32,
    /// Entry index of the redirect target in the path pointer list.
    pub redirect_index: u32,
    /// URL-safe path of this redirect.
    pub path: String,
    /// Human-readable title. Falls back to `path` when the stored title is
    /// empty.
    pub title: String,
}

/// The contents of a [`ContentEntry`].
pub struct ContentView {
    pub mime_type_idx: u16,
    pub namespace: char,
    pub revision: u32,
    pub cluster_number: u32,
    pub blob_number: u32,
    pub path: Seq<char>,
    pub title: Seq<char>,
}

/// The contents of a [`RedirectEntry`].
pub struct RedirectView {
    pub namespace: char,
    pub revision: u32,
    pub redirect_index: u32,
    pub path: Seq<char>,
    pub title: Seq<char>,
}

/// The contents of a [`Dirent`].
pub enum DirentView {
    Content(ContentView),
    Redirect(RedirectView),
}

impl View for ContentEntry {
    type V = ContentView;

    open spec fn view(&self) -> ContentView {
        ContentView {
            mime_type_idx: self.mime_type_idx,
            namespace: self.namespace,
            revision: self.revision,
            cluster_number: self.cluster_number,
            blob_number: self.blob_number,
            path: self.path@,
            title: self.title@,
        }
    }
}

impl DeepView for ContentEntry {
    type V = ContentView;

    open spec fn deep_view(&self) -> ContentView {
        self@
    }
}

impl View for RedirectEntry {
    type V = RedirectView;

    open spec fn view(&self) -> RedirectView {
        RedirectView {
            namespace: self.namespace,
            revision: self.revision,
            redirect_index: self.redirect_index,
            path: self.path@,
            title: self.title@,
        }
    }
}

impl DeepView for RedirectEntry {
    type V = RedirectView;

    open spec fn deep_view(&self) -> RedirectView {
        self@
    }
}

impl View for Dirent {
    type V = DirentView;

    open spec fn view(&self) -> DirentView {
        match *self {
            Dirent::Content(entry) => DirentView::Content(entry@),
            Dirent::Redirect(entry) => DirentView::Redirect(entry@),
        }
    }
}

impl DeepView for Dirent {
    type V = DirentView;

    open spec fn deep_view(&self) -> DirentView {
        self@
    }
}

impl Clone for ContentEntry {
    fn clone(&self) -> (entry: ContentEntry)
        ensures
            entry@ == self@,
    {
        ContentEntry {
            mime_type_idx: self.mime_type_idx,
            namespace: self.namespace,
            revision: self.revision,
            cluster_number: self.cluster_number,
            blob_number: self.blob_number,
            path: self.path.clone(),
            title: self.title.clone(),
        }
    }
}

impl Clone for RedirectEntry {
    fn clone(&self) -> (entry: RedirectEntry)
        ensures
            entry@ == self@,
    {
        RedirectEntry {
            namespace: self.namespace,
            revision: self.revision,
            redirect_index: self.redirect_index,
            path: self.path.clone(),
            title: self.title.clone(),
        }
    }
}

impl Clone for Dirent {
    fn clone(&self) -> (entry: Dirent)
        ensures
            entry@ == self@,
    {
        match self {
            Dirent::Content(entry) => Dirent::Content(entry.clone()),
            Dirent::Redirect(entry) => Dirent::Redirect(entry.clone()),
        }
    }
}

impl DirentView {
    /// Namespace character of the entry.
    pub open spec fn namespace(self) -> char {
        match self {
            DirentView::Content(entry) => entry.namespace,
            DirentView::Redirect(entry) => entry.namespace,
        }
    }

    /// Path of the entry.
    pub open spec fn path(self) -> Seq<char> {
        match self {
            DirentView::Content(entry) => entry.path,
            DirentView::Redirect(entry) => entry.path,
        }
    }

    /// Title of the entry.
    pub open spec fn title(self) -> Seq<char> {
        match self {
            DirentView::Content(entry) => entry.title,
            DirentView::Redirect(entry) => entry.title,
        }
    }
}

/// Whether a byte is a visible ASCII character.
pub open spec fn is_graphic(byte: u8) -> bool {
    0x21 <= byte <= 0x7E
}

/// Reading a namespace character at `off`.
pub open spec fn namespace_at(buf: Seq<u8>, off: int) -> Result<char, ErrorView> {
    if off >= buf.len() {
        Err(crate::util::out_of_bounds(off, "dirent.namespace"@))
    } else if is_graphic(buf[off]) {
        Ok(buf[off] as char)
    } else {
        Err(
            ErrorView::InvalidHeader {
                field: "dirent.namespace"@,
                reason: "non-graphic ASCII byte 0x"@ + crate::text::upper_hex(buf[off] as nat, 2),
            },
        )
    }
}

/// Whether entries with this MIME index are deprecated.
pub open spec fn is_deprecated(mime_type_idx: nat) -> bool {
    mime_type_idx == MIME_LINKTARGET || mime_type_idx == MIME_DELETED
}

/// Where the path starts in an entry with this MIME index.
pub open spec fn path_offset_of(mime_type_idx: nat) -> int {
    if mime_type_idx == MIME_REDIRECT {
        REDIRECT_PATH_OFFSET as int
    } else {
        CONTENT_PATH_OFFSET as int
    }
}

/// The title that counts: the stored one, or the path if that is empty.
pub open spec fn effective_title(path: Seq<char>, stored: Seq<char>) -> Seq<char> {
    if stored.len() == 0 {
        path
    } else {
        stored
    }
}

/// Reading the path and the title of an entry whose path starts at `off`.
pub open spec fn names_at(buf: Seq<u8>, off: int) -> Result<(Seq<char>, Seq<char>), ErrorView> {
    match crate::util::cstring_at(buf, off) {
        Err(error) => Err(error),
        Ok((path, path_len)) => match crate::util::cstring_at(buf, off + path_len) {
            Err(error) => Err(error),
            Ok((stored, _)) => Ok((path, effective_title(path, stored))),
        },
    }
}

/// Reading the body of a redirect at `base`.
pub open spec fn redirect_at(
    buf: Seq<u8>,
    base: int,
    namespace: char,
    revision: u32,
) -> Result<RedirectView, ErrorView> {
    match crate::util::read_le(buf, base + 8, 4, "redirect_index"@) {
        Err(error) => Err(error),
        Ok(target) => match names_at(buf, base + REDIRECT_PATH_OFFSET) {
            Err(error) => Err(error),
            Ok((path, title)) => Ok(
                RedirectView { namespace, revision, redirect_index: target as u32, path, title },
            ),
        },
    }
}

/// Reading the body of a content entry at `base`.
pub open spec fn content_at(
    buf: Seq<u8>,
    base: int,
    mime_type_idx: u16,
    namespace: char,
    revision: u32,
) -> Result<ContentView, ErrorView> {
    match crate::util::read_le(buf, base + 8, 4, "cluster_number"@) {
        Err(error) => Err(error),
        Ok(cluster) => match crate::util::read_le(buf, base + 12, 4, "blob_number"@) {
            Err(error) => Err(error),
            Ok(blob) => match names_at(buf, base + CONTENT_PATH_OFFSET) {
                Err(error) => Err(error),
                Ok((path, title)) => Ok(
                    ContentView {
                        mime_type_idx,
                        namespace,
                        revision,
                        cluster_number: cluster as u32,
                        blob_number: blob as u32,
                        path,
                        title,
                    },
                ),
            },
        },
    }
}

/// The error of an entry whose MIME index is not in the table.
pub open spec fn mime_out_of_range(mime_type_idx: nat, mime_count: nat) -> ErrorView {
    ErrorView::InvalidHeader {
        field: "dirent.mime_type_idx"@,
        reason: "mime index "@ + crate::text::decimal(mime_type_idx)
            + " out of range (archive has "@ + crate::text::decimal(mime_count) + " types)"@,
    }
}

/// What parsing the directory entry at `base` gives: nothing for a deprecated
/// entry.
pub open spec fn dirent_at(buf: Seq<u8>, base: int, mime_count: nat) -> Result<
    Option<DirentView>,
    ErrorView,
> {
    match crate::util::read_le(buf, base, 2, "mime_type_idx"@) {
        Err(error) => Err(error),
        Ok(mime) => if is_deprecated(mime) {
            Ok(None)
        } else {
            match namespace_at(buf, crate::util::position_after(base, 3)) {
                Err(error) => Err(error),
                Ok(namespace) => match crate::util::read_le(buf, base + 4, 4, "revision"@) {
                    Err(error) => Err(error),
                    Ok(revision) => if mime == MIME_REDIRECT {
                        match redirect_at(buf, base, namespace, revision as u32) {
                            Err(error) => Err(error),
                            Ok(entry) => Ok(Some(DirentView::Redirect(entry))),
                        }
                    } else if mime >= mime_count {
                        Err(mime_out_of_range(mime, mime_count))
                    } else {
                        match content_at(buf, base, mime as u16, namespace, revision as u32) {
                            Err(error) => Err(error),
                            Ok(entry) => Ok(Some(DirentView::Content(entry))),
                        }
                    },
                },
            }
        },
    }
}

/// Reading the namespace and the path of the entry at `base`, whatever its
/// kind.
pub open spec fn path_sort_key_at(buf: Seq<u8>, base: int) -> Result<
    (char, Seq<char>),
    ErrorView,
> {
    match crate::util::read_le(buf, base, 2, "mime_type_idx"@) {
        Err(error) => Err(error),
        Ok(mime) => match namespace_at(buf, crate::util::position_after(base, 3)) {
            Err(error) => Err(error),
            Ok(namespace) => match crate::util::cstring_at(
                buf,
                crate::util::position_after(base, path_offset_of(mime)),
            ) {
                Err(error) => Err(error),
                Ok((path, _)) => Ok((namespace, path)),
            },
        },
    }
}

/// Reading the namespace and the title of the entry at `base`, whatever its
/// kind.
pub open spec fn title_sort_key_at(buf: Seq<u8>, base: int) -> Result<
    (char, Seq<char>),
    ErrorView,
> {
    match crate::util::read_le(buf, base, 2, "mime_type_idx"@) {
        Err(error) => Err(error),
        Ok(mime) => match namespace_at(buf, crate::util::position_after(base, 3)) {
            Err(error) => Err(error),
            Ok(namespace) => match names_at(
                buf,
                crate::util::position_after(base, path_offset_of(mime)),
            ) {
                Err(error) => Err(error),
                Ok((_, title)) => Ok((namespace, title)),
            },
        },
    }
}

/// Reads the namespace character at `off`.
pub fn read_namespace(buf: &[u8], off: usize) -> (res: Result<char, Error>)
    ensures
        outcome(res) == namespace_at(buf@, off as int),
{
    if off >= buf.len() {
        return Err(Error::OffsetOutOfBounds { offset: off as u64, field: "dirent.namespace" });
    }
    let byte: u8 = buf[off];
    if byte < 0x21 || byte > 0x7E {
        let mut reason: String = "non-graphic ASCII byte 0x".to_owned();
        push_upper_hex(&mut reason, byte as u32, 2);
        return Err(Error::InvalidHeader { field: "dirent.namespace", reason });
    }
    Ok(byte as char)
}

/// Where the path starts in an entry with this MIME index.
pub fn path_offset_for(mime_type_idx: u16) -> (off: usize)
    ensures
        off == path_offset_of(mime_type_idx as nat),
{
    if mime_type_idx == MIME_REDIRECT {
        REDIRECT_PATH_OFFSET
    } else {
        CONTENT_PATH_OFFSET
    }
}

/// Reads the path and the title of an entry whose path starts at `off`.
fn read_names(buf: &[u8], off: usize) -> (res: Result<(String, String), Error>)
    ensures
        outcome(res) == names_at(buf@, off as int),
{
    let (path, path_len): (String, usize) = match read_cstring(buf, off) {
        Ok(pair) => pair,
        Err(error) => {
            return Err(error);
        },
    };
    proof {
        crate::util::lemma_first_nul(buf@, off as int);
        assert(buf@.len() == buf.len());
    }
    let (stored, _): (String, usize) = match read_cstring(buf, off + path_len) {
        Ok(pair) => pair,
        Err(error) => {
            return Err(error);
        },
    };
    if stored.as_str().is_empty() {
        let title: String = path.clone();
        Ok((path, title))
    } else {
        Ok((path, stored))
    }
}

impl Dirent {
    /// Namespace character of this entry.
    pub fn namespace(&self) -> (namespace: char)
        ensures
            namespace == self@.namespace(),
    {
        match self {
            Dirent::Content(entry) => entry.namespace,
            Dirent::Redirect(entry) => entry.namespace,
        }
    }

    /// URL-safe path of this entry.
    pub fn path(&self) -> (path: &str)
        ensures
            path@ == self@.path(),
    {
        match self {
            Dirent::Content(entry) => entry.path.as_str(),
            Dirent::Redirect(entry) => entry.path.as_str(),
        }
    }

    /// Human-readable title of this entry (falls back to path when absent).
    pub fn title(&self) -> (title: &str)
        ensures
            title@ == self@.title(),
    {
        match self {
            Dirent::Content(entry) => entry.title.as_str(),
            Dirent::Redirect(entry) => entry.title.as_str(),
        }
    }

    /// Parses the directory entry starting at `offset`. Returns `Ok(None)` for
    /// deprecated entries (`mime_type_idx` 0xFFFE or 0xFFFD), which the caller
    /// should skip.
    pub fn parse_at(buf: &[u8], offset: u64, mime_count: usize) -> (res: Result<
        Option<Dirent>,
        Error,
    >)
        ensures
            outcome(res) == dirent_at(
                buf@,
                crate::util::position_after(offset as int, 0),
                mime_count as nat,
            ),
    {
        let base: usize = position(offset, 0);
        assert(buf@.len() == buf.len());
        let mime_type_idx: u16 = match read_u16_le(buf, base, "mime_type_idx") {
            Ok(idx) => idx,
            Err(error) => {
                return Err(error);
            },
        };
        if mime_type_idx == MIME_LINKTARGET || mime_type_idx == MIME_DELETED {
            return Ok(None);
        }
        // The parameter length at base + 2 is not needed: the extra data
        // follows the title.
        let namespace: char = match read_namespace(buf, position(base as u64, 3)) {
            Ok(namespace) => namespace,
            Err(error) => {
                return Err(error);
            },
        };
        let revision: u32 = match read_u32_le(buf, base + 4, "revision") {
            Ok(revision) => revision,
            Err(error) => {
                return Err(error);
            },
        };
        if mime_type_idx == MIME_REDIRECT {
            let redirect_index: u32 = match read_u32_le(buf, base + 8, "redirect_index") {
                Ok(idx) => idx,
                Err(error) => {
                    return Err(error);
                },
            };
            let (path, title): (String, String) = match read_names(
                buf,
                base + REDIRECT_PATH_OFFSET,
            ) {
                Ok(names) => names,
                Err(error) => {
                    return Err(error);
                },
            };
            return Ok(
                Some(
                    Dirent::Redirect(
                        RedirectEntry { namespace, revision, redirect_index, path, title },
                    ),
                ),
            );
        }
        if mime_type_idx as usize >= mime_count {
            let mut reason: String = "mime index ".to_owned();
            push_decimal(&mut reason, mime_type_idx as u64);
            reason.append(" out of range (archive has ");
            push_decimal(&mut reason, mime_count as u64);
            reason.append(" types)");
            return Err(Error::InvalidHeader { field: "dirent.mime_type_idx", reason });
        }
        let cluster_number: u32 = match read_u32_le(buf, base + 8, "cluster_number") {
            Ok(number) => number,
            Err(error) => {
                return Err(error);
            },
        };
        let blob_number: u32 = match read_u32_le(buf, base + 12, "blob_number") {
            Ok(number) => number,
            Err(error) => {
                return Err(error);
            },
        };
        let (path, title): (String, String) = match read_names(buf, base + CONTENT_PATH_OFFSET) {
            Ok(names) => names,
            Err(error) => {
                return Err(error);
            },
        };
        Ok(
            Some(
                Dirent::Content(
                    ContentEntry {
                        mime_type_idx,
                        namespace,
                        revision,
                        cluster_number,
                        blob_number,
                        path,
                        title,
                    },
                ),
            ),
        )
    }
}

/// Reads just `(namespace, path)` at `offset`. Works uniformly for content,
/// redirect, and deprecated entries: all share the same prefix layout and
/// place the path at a position determined by the MIME index.
pub fn read_path_sort_key(buf: &[u8], offset: u64) -> (res: Result<(char, String), Error>)
    ensures
        outcome(res) == path_sort_key_at(buf@, crate::util::position_after(offset as int, 0)),
{
    let base: usize = position(offset, 0);
    let mime_type_idx: u16 = match read_u16_le(buf, base, "mime_type_idx") {
        Ok(idx) => idx,
        Err(error) => {
            return Err(error);
        },
    };
    let namespace: char = match read_namespace(buf, position(base as u64, 3)) {
        Ok(namespace) => namespace,
        Err(error) => {
            return Err(error);
        },
    };
    let path_off: usize = position(base as u64, path_offset_for(mime_type_idx) as u64);
    match read_cstring(buf, path_off) {
        Ok((path, _)) => Ok((namespace, path)),
        Err(error) => Err(error),
    }
}

/// Reads just `(namespace, title)` at `offset`. If the stored title is empty,
/// returns the path instead.
pub fn read_title_sort_key(buf: &[u8], offset: u64) -> (res: Result<(char, String), Error>)
    ensures
        outcome(res) == title_sort_key_at(buf@, crate::util::position_after(offset as int, 0)),
{
    let base: usize = position(offset, 0);
    let mime_type_idx: u16 = match read_u16_le(buf, base, "mime_type_idx") {
        Ok(idx) => idx,
        Err(error) => {
            return Err(error);
        },
    };
    let namespace: char = match read_namespace(buf, position(base as u64, 3)) {
        Ok(namespace) => namespace,
        Err(error) => {
            return Err(error);
        },
    };
    let path_off: usize = position(base as u64, path_offset_for(mime_type_idx) as u64);
    match read_names(buf, path_off) {
        Ok((_, title)) => Ok((namespace, title)),
        Err(error) => Err(error),
    }
}

/// The first eight bytes of an entry as they are stored.
pub open spec fn prefix_bytes(
    mime_type_idx: u16,
    parameter_len: u8,
    namespace: char,
    revision: u32,
) -> Seq<u8> {
    crate::util::le_bytes(mime_type_idx as nat, 2) + seq![parameter_len, namespace as u8]
        + crate::util::le_bytes(revision as nat, 4)
}

/// A content entry as it is stored, with this parameter length and title
/// string; extra data may follow.
pub open spec fn content_bytes(entry: ContentView, parameter_len: u8, stored: Seq<char>) -> Seq<
    u8,
> {
    prefix_bytes(entry.mime_type_idx, parameter_len, entry.namespace, entry.revision)
        + crate::util::le_bytes(entry.cluster_number as nat, 4) + crate::util::le_bytes(
        entry.blob_number as nat,
        4,
    ) + crate::util::cstring_bytes(entry.path) + crate::util::cstring_bytes(stored)
}

/// A redirect as it is stored, with this parameter length and title string;
/// extra data may follow.
pub open spec fn redirect_bytes(entry: RedirectView, parameter_len: u8, stored: Seq<char>) -> Seq<
    u8,
> {
    prefix_bytes(MIME_REDIRECT, parameter_len, entry.namespace, entry.revision)
        + crate::util::le_bytes(entry.redirect_index as nat, 4) + crate::util::cstring_bytes(
        entry.path,
    ) + crate::util::cstring_bytes(stored)
}

/// Whether a character can be a namespace.
pub open spec fn is_namespace(c: char) -> bool {
    '!' <= c <= '~'
}

/// The first eight bytes of an entry are read back.
proof fn lemma_prefix(
    before: Seq<u8>,
    mime_type_idx: u16,
    parameter_len: u8,
    namespace: char,
    revision: u32,
    after: Seq<u8>,
)
    requires
        is_namespace(namespace),
        before.len() + 8 <= usize::MAX,
    ensures
        ({
            let base = before.len() as int;
            let buf = before + prefix_bytes(mime_type_idx, parameter_len, namespace, revision)
                + after;
            &&& prefix_bytes(mime_type_idx, parameter_len, namespace, revision).len() == 8
            &&& crate::util::read_le(buf, base, 2, "mime_type_idx"@) == Ok::<nat, ErrorView>(
                mime_type_idx as nat,
            )
            &&& namespace_at(buf, crate::util::position_after(base, 3)) == Ok::<char, ErrorView>(
                namespace,
            )
            &&& crate::util::read_le(buf, base + 4, 4, "revision"@) == Ok::<nat, ErrorView>(
                revision as nat,
            )
        }),
{
    let mime = crate::util::le_bytes(mime_type_idx as nat, 2);
    let middle = seq![parameter_len, namespace as u8];
    let rev = crate::util::le_bytes(revision as nat, 4);
    let buf = before + prefix_bytes(mime_type_idx, parameter_len, namespace, revision) + after;
    crate::util::le_limits();
    crate::util::le_value_is_bounded(Seq::empty(), mime_type_idx as nat, 2);
    crate::util::le_value_is_bounded(Seq::empty(), revision as nat, 4);
    assert(buf =~= before + mime + (middle + rev + after));
    crate::util::number_is_read_back(
        before,
        mime_type_idx as nat,
        2,
        middle + rev + after,
        "mime_type_idx"@,
    );
    assert(buf =~= (before + mime + middle) + rev + after);
    crate::util::number_is_read_back(
        before + mime + middle,
        revision as nat,
        4,
        after,
        "revision"@,
    );
    assert(buf[before.len() as int + 3] == namespace as u8);
}

/// A path and a title are read back.
proof fn lemma_names(before: Seq<u8>, path: Seq<char>, stored: Seq<char>, after: Seq<u8>)
    requires
        !path.contains('\0'),
        !stored.contains('\0'),
    ensures
        names_at(
            before + crate::util::cstring_bytes(path) + crate::util::cstring_bytes(stored) + after,
            before.len() as int,
        ) == Ok::<(Seq<char>, Seq<char>), ErrorView>((path, effective_title(path, stored))),
{
    let first = crate::util::cstring_bytes(path);
    let second = crate::util::cstring_bytes(stored);
    let buf = before + first + second + after;
    assert(buf =~= before + first + (second + after));
    crate::util::cstring_is_read_back(before, path, second + after);
    assert(buf =~= (before + first) + second + after);
    crate::util::cstring_is_read_back(before + first, stored, after);
}

/// Writing a content entry and parsing it gives the entry back, whatever its
/// parameter length and whatever stands before and after. An empty title
/// string makes the path the title.
pub proof fn content_is_read_back(
    before: Seq<u8>,
    entry: ContentView,
    parameter_len: u8,
    stored: Seq<char>,
    after: Seq<u8>,
    mime_count: nat,
)
    requires
        entry.mime_type_idx < mime_count,
        entry.mime_type_idx < MIME_DELETED,
        is_namespace(entry.namespace),
        !entry.path.contains('\0'),
        !stored.contains('\0'),
        entry.title == effective_title(entry.path, stored),
        before.len() + 8 <= usize::MAX,
    ensures
        dirent_at(
            before + content_bytes(entry, parameter_len, stored) + after,
            before.len() as int,
            mime_count,
        ) == Ok::<Option<DirentView>, ErrorView>(Some(DirentView::Content(entry))),
{
    let prefix = prefix_bytes(entry.mime_type_idx, parameter_len, entry.namespace, entry.revision);
    let cluster = crate::util::le_bytes(entry.cluster_number as nat, 4);
    let blob = crate::util::le_bytes(entry.blob_number as nat, 4);
    let first = crate::util::cstring_bytes(entry.path);
    let second = crate::util::cstring_bytes(stored);
    let buf = before + content_bytes(entry, parameter_len, stored) + after;
    crate::util::le_limits();
    crate::util::le_value_is_bounded(Seq::empty(), entry.cluster_number as nat, 4);
    crate::util::le_value_is_bounded(Seq::empty(), entry.blob_number as nat, 4);
    assert(buf =~= before + prefix + (cluster + blob + first + second + after));
    lemma_prefix(
        before,
        entry.mime_type_idx,
        parameter_len,
        entry.namespace,
        entry.revision,
        cluster + blob + first + second + after,
    );
    assert(buf =~= (before + prefix) + cluster + (blob + first + second + after));
    crate::util::number_is_read_back(
        before + prefix,
        entry.cluster_number as nat,
        4,
        blob + first + second + after,
        "cluster_number"@,
    );
    assert(buf =~= (before + prefix + cluster) + blob + (first + second + after));
    crate::util::number_is_read_back(
        before + prefix + cluster,
        entry.blob_number as nat,
        4,
        first + second + after,
        "blob_number"@,
    );
    assert(buf =~= (before + prefix + cluster + blob) + first + second + after);
    lemma_names(before + prefix + cluster + blob, entry.path, stored, after);
}

/// Writing a redirect and parsing it gives the redirect back, whatever its
/// parameter length and whatever stands before and after. An empty title
/// string makes the path the title.
pub proof fn redirect_is_read_back(
    before: Seq<u8>,
    entry: RedirectView,
    parameter_len: u8,
    stored: Seq<char>,
    after: Seq<u8>,
    mime_count: nat,
)
    requires
        is_namespace(entry.namespace),
        !entry.path.contains('\0'),
        !stored.contains('\0'),
        entry.title == effective_title(entry.path, stored),
        before.len() + 8 <= usize::MAX,
    ensures
        dirent_at(
            before + redirect_bytes(entry, parameter_len, stored) + after,
            before.len() as int,
            mime_count,
        ) == Ok::<Option<DirentView>, ErrorView>(Some(DirentView::Redirect(entry))),
{
    let prefix = prefix_bytes(MIME_REDIRECT, parameter_len, entry.namespace, entry.revision);
    let target = crate::util::le_bytes(entry.redirect_index as nat, 4);
    let first = crate::util::cstring_bytes(entry.path);
    let second = crate::util::cstring_bytes(stored);
    let buf = before + redirect_bytes(entry, parameter_len, stored) + after;
    crate::util::le_limits();
    crate::util::le_value_is_bounded(Seq::empty(), entry.redirect_index as nat, 4);
    assert(buf =~= before + prefix + (target + first + second + after));
    lemma_prefix(
        before,
        MIME_REDIRECT,
        parameter_len,
        entry.namespace,
        entry.revision,
        target + first + second + after,
    );
    assert(buf =~= (before + prefix) + target + (first + second + after));
    crate::util::number_is_read_back(
        before + prefix,
        entry.redirect_index as nat,
        4,
        first + second + after,
        "redirect_index"@,
    );
    assert(buf =~= (before + prefix + target) + first + second + after);
    lemma_names(before + prefix + target, entry.path, stored, after);
}

/// A deprecated entry parses to nothing, whatever follows its MIME index.
pub proof fn deprecated_is_nothing(
    before: Seq<u8>,
    mime_type_idx: u16,
    after: Seq<u8>,
    mime_count: nat,
)
    requires
        is_deprecated(mime_type_idx as nat),
    ensures
        dirent_at(
            before + crate::util::le_bytes(mime_type_idx as nat, 2) + after,
            before.len() as int,
            mime_count,
        ) == Ok::<Option<DirentView>, ErrorView>(None),
{
    crate::util::le_limits();
    crate::util::number_is_read_back(before, mime_type_idx as nat, 2, after, "mime_type_idx"@);
}

/// The sort keys of an entry that parses are its namespace with its path and
/// its title.
pub proof fn sort_keys_agree_with_entry(buf: Seq<u8>, base: int, mime_count: nat)
    requires
        0 <= base,
        buf.len() <= usize::MAX,
    ensures
        dirent_at(buf, base, mime_count) matches Ok(Some(entry)) ==> {
            &&& path_sort_key_at(buf, base) == Ok::<(char, Seq<char>), ErrorView>(
                (entry.namespace(), entry.path()),
            )
            &&& title_sort_key_at(buf, base) == Ok::<(char, Seq<char>), ErrorView>(
                (entry.namespace(), entry.title()),
            )
        },
{
}

/// The title of an entry that parses is empty only if its path is.
pub proof fn title_falls_back_to_path(buf: Seq<u8>, base: int, mime_count: nat)
    ensures
        dirent_at(buf, base, mime_count) matches Ok(Some(entry)) ==> (entry.title().len() == 0
            ==> entry.path().len() == 0),
{
}

/// Whether a path and a title string stand at `off`, each spelled in UTF-8 and
/// ended by its only null byte, and `title` is what they make the title: the
/// title string, or the path if that is empty.
pub open spec fn names_stand_at(
    buf: Seq<u8>,
    off: int,
    path: Seq<char>,
    stored: Seq<char>,
    title: Seq<char>,
) -> bool {
    let first = vstd::utf8::encode_utf8(path);
    let second = vstd::utf8::encode_utf8(stored);
    let end = off + first.len() + 1 + second.len() + 1;
    &&& end <= buf.len()
    &&& buf.subrange(off, end) == first + seq![0u8] + second + seq![0u8]
    &&& !first.contains(0u8)
    &&& !second.contains(0u8)
    &&& stored.len() > 0 ==> title == stored
    &&& stored.len() == 0 ==> title == path
}

/// Whether a path and a title string that make up this title stand at `off`.
pub open spec fn path_and_title_stand_at(
    buf: Seq<u8>,
    off: int,
    path: Seq<char>,
    title: Seq<char>,
) -> bool {
    exists|stored: Seq<char>| names_stand_at(buf, off, path, stored, title)
}

/// Whether some path and a title string that make up this title stand at `off`.
pub open spec fn title_stands_at(buf: Seq<u8>, off: int, title: Seq<char>) -> bool {
    exists|path: Seq<char>| path_and_title_stand_at(buf, off, path, title)
}

/// The path and the title that are read are those that stand there; the path
/// is the title where the title string is empty.
proof fn lemma_names_stand(buf: Seq<u8>, off: int)
    requires
        0 <= off,
    ensures
        names_at(buf, off) matches Ok((path, title)) ==> path_and_title_stand_at(
            buf,
            off,
            path,
            title,
        ),
{
    if let Ok((path, path_len)) = crate::util::cstring_at(buf, off) {
        crate::util::string_read_is_the_one_that_stands_there(buf, off, path, path_len);
        if let Ok((stored, len)) = crate::util::cstring_at(buf, off + path_len) {
            crate::util::string_read_is_the_one_that_stands_there(buf, off + path_len, stored, len);
            let first = vstd::utf8::encode_utf8(path);
            let second = vstd::utf8::encode_utf8(stored);
            assert(first == buf.subrange(off, off + path_len - 1));
            assert(second == buf.subrange(off + path_len, off + path_len + len - 1));
            assert(buf.subrange(off, off + path_len + len) =~= first + seq![0u8] + second + seq![
                0u8,
            ]);
            assert(names_stand_at(buf, off, path, stored, effective_title(path, stored)));
        }
    }
}

/// An entry that parses is the one that stands there: each of its numbers is
/// the one at its offset, its namespace is a visible ASCII character, and its
/// path and title are the strings behind the numbers, the path for both if the
/// title string is empty. Nothing but a deprecated entry parses to nothing.
pub proof fn entry_is_the_one_that_stands_there(buf: Seq<u8>, base: int, mime_count: nat)
    requires
        0 <= base,
        buf.len() <= usize::MAX,
    ensures
        match dirent_at(buf, base, mime_count) {
            Ok(Some(DirentView::Content(entry))) => {
                &&& base + 16 <= buf.len()
                &&& entry.mime_type_idx == crate::util::le_value(buf.subrange(base, base + 2))
                &&& entry.mime_type_idx < mime_count
                &&& entry.mime_type_idx < 0xFFFD
                &&& entry.namespace == buf[base + 3] as char
                &&& 0x21 <= buf[base + 3] <= 0x7E
                &&& entry.revision == crate::util::le_value(buf.subrange(base + 4, base + 8))
                &&& entry.cluster_number == crate::util::le_value(buf.subrange(base + 8, base + 12))
                &&& entry.blob_number == crate::util::le_value(buf.subrange(base + 12, base + 16))
                &&& path_and_title_stand_at(buf, base + 16, entry.path, entry.title)
            },
            Ok(Some(DirentView::Redirect(entry))) => {
                &&& base + 12 <= buf.len()
                &&& crate::util::le_value(buf.subrange(base, base + 2)) == 0xFFFF
                &&& entry.namespace == buf[base + 3] as char
                &&& 0x21 <= buf[base + 3] <= 0x7E
                &&& entry.revision == crate::util::le_value(buf.subrange(base + 4, base + 8))
                &&& entry.redirect_index == crate::util::le_value(buf.subrange(base + 8, base + 12))
                &&& path_and_title_stand_at(buf, base + 12, entry.path, entry.title)
            },
            Ok(None) => {
                &&& base + 2 <= buf.len()
                &&& crate::util::le_value(buf.subrange(base, base + 2)) == 0xFFFE
                    || crate::util::le_value(buf.subrange(base, base + 2)) == 0xFFFD
            },
            Err(_) => true,
        },
{
    crate::util::le_limits();
    if base + 12 <= buf.len() {
        crate::util::le_value_is_bounded(buf.subrange(base, base + 2), 0, 0);
        crate::util::le_value_is_bounded(buf.subrange(base + 4, base + 8), 0, 0);
        crate::util::le_value_is_bounded(buf.subrange(base + 8, base + 12), 0, 0);
        lemma_names_stand(buf, base + 12);
    }
    if base + 16 <= buf.len() {
        crate::util::le_value_is_bounded(buf.subrange(base + 12, base + 16), 0, 0);
        lemma_names_stand(buf, base + 16);
    }
}

/// A content entry whose MIME index is not in the table is an error, whatever
/// else it holds.
pub proof fn mime_index_beyond_the_table_is_an_error(buf: Seq<u8>, base: int, mime_count: nat)
    requires
        0 <= base,
        base + 2 <= buf.len(),
        mime_count <= crate::util::le_value(buf.subrange(base, base + 2)) < 0xFFFD,
    ensures
        dirent_at(buf, base, mime_count) is Err,
{
}

/// An entry whose namespace is not a visible ASCII character is an error,
/// unless it is deprecated.
pub proof fn invisible_namespace_is_an_error(buf: Seq<u8>, base: int, mime_count: nat)
    requires
        0 <= base,
        base + 4 <= buf.len() <= usize::MAX,
        buf[base + 3] < 0x21 || buf[base + 3] > 0x7E,
        crate::util::le_value(buf.subrange(base, base + 2)) != 0xFFFE,
        crate::util::le_value(buf.subrange(base, base + 2)) != 0xFFFD,
    ensures
        dirent_at(buf, base, mime_count) is Err,
{
}

/// The sort keys of an entry of any kind, deprecated ones among them, are its
/// namespace and the strings that stand where its kind has them: behind 12
/// bytes in a redirect and behind 16 in any other entry.
pub proof fn sort_keys_stand_at_their_offsets(
    buf: Seq<u8>,
    base: int,
    path: Seq<char>,
    stored: Seq<char>,
    title: Seq<char>,
)
    requires
        0 <= base,
        base + 4 <= buf.len() <= usize::MAX,
        0x21 <= buf[base + 3] <= 0x7E,
        names_stand_at(
            buf,
            base + if crate::util::le_value(buf.subrange(base, base + 2)) == 0xFFFF {
                12int
            } else {
                16
            },
            path,
            stored,
            title,
        ),
    ensures
        path_sort_key_at(buf, base) == Ok::<(char, Seq<char>), ErrorView>(
            (buf[base + 3] as char, path),
        ),
        title_sort_key_at(buf, base) == Ok::<(char, Seq<char>), ErrorView>(
            (buf[base + 3] as char, title),
        ),
{
    let off = base + if crate::util::le_value(buf.subrange(base, base + 2)) == 0xFFFF {
        12int
    } else {
        16
    };
    let first = vstd::utf8::encode_utf8(path);
    let second = vstd::utf8::encode_utf8(stored);
    let all = first + seq![0u8] + second + seq![0u8];
    let end = off + all.len();
    let part = buf.subrange(off, end);
    assert(part == all);
    assert forall|i: int| 0 <= i < all.len() implies buf[off + i] == #[trigger] all[i] by {
        assert(part[i] == buf[off + i]);
    }
    let middle = off + first.len() + 1;
    assert(buf[middle - 1] == all[first.len() as int]);
    assert(buf[end - 1] == all[all.len() - 1]);
    assert forall|i: int| 0 <= i < first.len() implies buf[off + i] == first[i] by {
        assert(buf[off + i] == all[i]);
    }
    assert forall|i: int| 0 <= i < second.len() implies buf[middle + i] == second[i] by {
        assert(buf[off + (first.len() + 1 + i)] == all[first.len() + 1 + i]);
    }
    assert(buf.subrange(off, middle - 1) =~= first);
    assert(buf.subrange(middle, end - 1) =~= second);
    assert forall|i: int| off <= i < middle - 1 implies buf[i] != 0 by {
        assert(buf[off + (i - off)] == all[i - off]);
        assert(first.contains(first[i - off]));
    }
    assert forall|i: int| middle <= i < end - 1 implies buf[i] != 0 by {
        assert(buf[off + (i - off)] == all[i - off]);
        assert(second.contains(second[i - middle]));
    }
    crate::util::string_read_is_the_one_that_stands_there(
        buf,
        off,
        path,
        first.len() as int + 1,
    );
    crate::util::string_read_is_the_one_that_stands_there(
        buf,
        middle,
        stored,
        second.len() as int + 1,
    );
}

/// A sort key that is read is the namespace and the string that stand there:
/// the namespace is a visible ASCII character, and the strings stand behind 12
/// bytes in a redirect and behind 16 in any other entry.
pub proof fn sort_keys_are_those_that_stand_there(buf: Seq<u8>, base: int)
    requires
        0 <= base,
        buf.len() <= usize::MAX,
    ensures
        ({
            let off = base + if crate::util::le_value(buf.subrange(base, base + 2)) == 0xFFFF {
                12int
            } else {
                16
            };
            &&& path_sort_key_at(buf, base) matches Ok((namespace, path)) ==> {
                &&& base + 4 <= buf.len()
                &&& 0x21 <= buf[base + 3] <= 0x7E
                &&& namespace == buf[base + 3] as char
                &&& vstd::utf8::encode_utf8(path).push(0u8).is_prefix_of(buf.skip(off))
            }
            &&& title_sort_key_at(buf, base) matches Ok((namespace, title)) ==> {
                &&& base + 4 <= buf.len()
                &&& 0x21 <= buf[base + 3] <= 0x7E
                &&& namespace == buf[base + 3] as char
                &&& title_stands_at(buf, off, title)
            }
        }),
{
    let off = base + if crate::util::le_value(buf.subrange(base, base + 2)) == 0xFFFF {
        12int
    } else {
        16
    };
    if let Ok((namespace, path)) = path_sort_key_at(buf, base) {
        let consumed = (crate::util::cstring_at(buf, off)->Ok_0).1;
        crate::util::string_read_is_the_one_that_stands_there(buf, off, path, consumed);
        let bytes = vstd::utf8::encode_utf8(path).push(0u8);
        assert(bytes.len() == consumed);
        assert(buf.skip(off).subrange(0, bytes.len() as int) =~= bytes);
    }
    if let Ok((namespace, title)) = title_sort_key_at(buf, base) {
        lemma_names_stand(buf, off);
        let path = (names_at(buf, off)->Ok_0).0;
        assert(path_and_title_stand_at(buf, off, path, title));
    }
}

/// The errors of entries say what is wrong: a number or string that leaves the
/// file, a string that is not UTF-8, a namespace that is not a visible
/// character, which the error names in hexadecimal, or a MIME index that the
/// table does not have, which the error names together with the length of the
/// table.
pub proof fn entry_error_says_what_is_wrong(buf: Seq<u8>, base: int, mime_count: nat)
    requires
        0 <= base,
        buf.len() <= usize::MAX,
    ensures
        dirent_at(buf, base, mime_count) matches Err(error) ==> match error {
            ErrorView::OffsetOutOfBounds { offset, field } => base <= offset,
            ErrorView::InvalidUtf8(offset) => base + 12 <= offset <= buf.len(),
            ErrorView::InvalidHeader { field, reason } => {
                ||| field == "dirent.namespace"@ && base + 4 <= buf.len() && !(0x21 <= buf[base + 3]
                    <= 0x7E) && crate::text::upper_hex(buf[base + 3] as nat, 2).is_suffix_of(reason)
                ||| field == "dirent.mime_type_idx"@ && base + 8 <= buf.len()
                    && crate::util::le_value(buf.subrange(base, base + 2)) >= mime_count && (
                "mime index "@ + crate::text::decimal(
                    crate::util::le_value(buf.subrange(base, base + 2)),
                ) + " out of range (archive has "@ + crate::text::decimal(
                    mime_count,
                )).is_prefix_of(reason)
            },
            _ => false,
        },
        base + 8 <= buf.len() && 0x21 <= buf[base + 3] <= 0x7E && mime_count
            <= crate::util::le_value(buf.subrange(base, base + 2)) < 0xFFFD ==> (dirent_at(
            buf,
            base,
            mime_count,
        ) matches Err(ErrorView::InvalidHeader { field, .. }) && field
            == "dirent.mime_type_idx"@),
{
    if base + 4 <= buf.len() {
        let digits = crate::text::upper_hex(buf[base + 3] as nat, 2);
        let reason = "non-graphic ASCII byte 0x"@ + digits;
        assert(reason.subrange(reason.len() - digits.len(), reason.len() as int) =~= digits);
        let mime = crate::util::le_value(buf.subrange(base, base + 2));
        let start = "mime index "@ + crate::text::decimal(mime) + " out of range (archive has "@
            + crate::text::decimal(mime_count);
        let whole = start + " types)"@;
        assert(whole.subrange(0, start.len() as int) =~= start);
    }
    if base + 12 <= buf.len() {
        crate::util::lemma_first_nul(buf, base + 12);
    }
    if base + 16 <= buf.len() {
        crate::util::lemma_first_nul(buf, base + 16);
    }
}

} // verus!
