//! Articles: resolved content entries with their bytes.
use vstd::prelude::*;
use vstd::string::*;
use vstd::utf8::*;

use crate::archive::{Archive, ArchiveView};
use crate::dirent::{ContentEntry, ContentView};

verus! {

/// A fully resolved article: its content entry plus the decompressed blob
/// bytes. Produced by [`Archive::get_article`] and [`Archive::main_page`].
#[derive(Debug)]
pub struct Article {
    /// Content entry that this article resolves to. When the caller's path was
    /// a redirect, this is the final target, not the original alias.
    pub entry: ContentEntry,
    /// Decompressed blob bytes.
    pub data: Vec<u8>,
}

/// The contents of an [`Article`].
pub struct ArticleView {
    pub entry: ContentView,
    pub data: Seq<u8>,
}

impl View for Article {
    type V = ArticleView;

    open spec fn view(&self) -> ArticleView {
        ArticleView { entry: self.entry@, data: self.data@ }
    }
}

impl DeepView for Article {
    type V = ArticleView;

    open spec fn deep_view(&self) -> ArticleView {
        self@
    }
}

impl Clone for Article {
    fn clone(&self) -> (article: Article)
        ensures
            article@ == self@,
    {
        let article: Article = Article { entry: self.entry.clone(), data: self.data.clone() };
        assert(article.data@ =~= self.data@);
        article
    }
}

/// The text that bytes spell in UTF-8, if they do.
pub open spec fn text_of(data: Seq<u8>) -> Option<Seq<char>> {
    if valid_utf8(data) {
        Some(decode_utf8(data))
    } else {
        None
    }
}

impl ArchiveView {
    /// The MIME type of this index; empty if there is none.
    pub open spec fn mime_type(self, idx: u16) -> Seq<char> {
        if idx < self.mime_types.len() {
            self.mime_types[idx as int]
        } else {
            Seq::empty()
        }
    }
}

impl ContentEntry {
    /// MIME string resolved through the archive's MIME table. Returns the
    /// empty string if the index is out of range.
    pub fn mime_type<'b>(&self, archive: &'b Archive<'_>) -> (text: &'b str)
        ensures
            text@ == archive@.mime_type(self@.mime_type_idx),
    {
        let types: &'b [String] = archive.mime_types();
        let idx: usize = self.mime_type_idx as usize;
        assert(types.deep_view().len() == types@.len());
        if idx < types.len() {
            types[idx].as_str()
        } else {
            proof {
                reveal_strlit("");
            }
            ""
        }
    }
}

impl Article {
    /// Interprets `data` as UTF-8 text, returning `None` if invalid.
    pub fn as_text(&self) -> (text: Option<&str>)
        ensures
            match text {
                Some(text) => text_of(self@.data) == Some(text@),
                None => text_of(self@.data) is None,
            },
    {
        match core::str::from_utf8(self.data.as_slice()) {
            Ok(text) => {
                proof {
                    encode_utf8_decode_utf8(text@);
                }
                Some(text)
            },
            Err(_) => None,
        }
    }

    /// MIME string resolved through the archive's MIME table. Returns the
    /// empty string if the index is out of range.
    pub fn mime_type<'b>(&self, archive: &'b Archive<'_>) -> (text: &'b str)
        ensures
            text@ == archive@.mime_type(self@.entry.mime_type_idx),
    {
        self.entry.mime_type(archive)
    }

    /// True if `data` is not valid UTF-8. Callers that need a decision by MIME
    /// type should inspect [`Article::mime_type`].
    pub fn is_binary(&self) -> (yes: bool)
        ensures
            yes == (text_of(self@.data) is None),
    {
        core::str::from_utf8(self.data.as_slice()).is_err()
    }
}

/// The MIME type of an entry is the type of its index in the table, for every
/// index that the table has; only beyond the table there is none.
pub proof fn mime_type_is_that_of_the_table(archive: ArchiveView, idx: u16)
    ensures
        0 <= idx < archive.mime_types.len() ==> archive.mime_type(idx)
            == archive.mime_types[idx as int],
        idx >= archive.mime_types.len() ==> archive.mime_type(idx).len() == 0,
{
}

/// Every content entry that is read from an archive has a MIME type: the one of
/// its index in the table, which is not empty.
pub proof fn entry_of_an_archive_has_a_mime_type(archive: ArchiveView, idx: int, entry: ContentView)
    requires
        archive.valid(),
        archive.dirent_at(idx) == Ok::<Option<crate::dirent::DirentView>, crate::error::ErrorView>(
            Some(crate::dirent::DirentView::Content(entry)),
        ),
    ensures
        entry.mime_type_idx < archive.mime_types.len(),
        archive.mime_type(entry.mime_type_idx) == archive.mime_types[entry.mime_type_idx as int],
        archive.mime_type(entry.mime_type_idx).len() > 0,
{
    let offset = archive.entry_offset(idx)->Ok_0;
    let base = crate::util::position_after(offset as int, 0);
    crate::dirent::entry_is_the_one_that_stands_there(
        archive.data,
        base,
        archive.mime_types.len(),
    );
    crate::mime::mime_types_are_not_empty(
        archive.data,
        crate::header::HEADER_SIZE as int,
    );
}

/// Bytes are text exactly if they spell one in UTF-8, and it is that text.
pub proof fn text_is_what_the_bytes_spell(data: Seq<u8>, text: Seq<char>)
    ensures
        text_of(data) == Some(text) <==> data == encode_utf8(text),
        text_of(data) is None <==> !valid_utf8(data),
{
    encode_utf8_valid_utf8(text);
    encode_utf8_decode_utf8(text);
    if valid_utf8(data) {
        decode_utf8_encode_utf8(data);
    }
}

} // verus!
