//! Reading content: clusters, blobs, redirects, articles and metadata.
use vstd::prelude::*;
use vstd::string::*;
use vstd::utf8::*;

use crate::archive::{Archive, ArchiveView};
use crate::article::{Article, ArticleView};
use crate::cluster::{decompress, extract_blob, ClusterInfo};
use crate::dirent::{ContentEntry, ContentView, Dirent, DirentView, RedirectEntry};
use crate::error::{outcome, Error, ErrorView};
use crate::namespace::metadata_namespace;
use crate::pointer_list::cluster_ptr;

verus! {

/// How many entries a redirect is followed through at most.
pub const MAX_REDIRECT_DEPTH: usize = 8;

impl ArchiveView {
    /// Reading where cluster `number` ends: where the next one starts, or the
    /// last one where the checksum does.
    pub open spec fn cluster_end(self, number: int) -> Result<nat, ErrorView> {
        if number + 1 < self.header.cluster_count {
            crate::pointer_list::cluster_ptr_at(
                self.data,
                self.header.cluster_ptr_pos as int,
                number + 1,
            )
        } else {
            Ok(self.header.checksum_pos as nat)
        }
    }

    /// Reading where cluster `number` starts and ends. A cluster has at least
    /// one byte and lies inside the file.
    pub open spec fn cluster_range(self, number: int) -> Result<(nat, nat), ErrorView> {
        if number >= self.header.cluster_count {
            Err(crate::util::out_of_bounds(number, "cluster_number"@))
        } else {
            match crate::pointer_list::cluster_ptr_at(
                self.data,
                self.header.cluster_ptr_pos as int,
                number,
            ) {
                Err(error) => Err(error),
                Ok(start) => match self.cluster_end(number) {
                    Err(error) => Err(error),
                    Ok(end) => if start >= self.data.len() {
                        Err(crate::util::out_of_bounds(start as int, "cluster_start"@))
                    } else if end <= start || end > self.data.len() {
                        Err(crate::util::out_of_bounds(end as int, "cluster_end"@))
                    } else {
                        Ok((start, end))
                    },
                },
            }
        }
    }

    /// Reading cluster `number`: what its first byte says, and the
    /// decompressed payload.
    pub open spec fn cluster_data(self, number: int) -> Result<(ClusterInfo, Seq<u8>), ErrorView> {
        match self.cluster_range(number) {
            Err(error) => Err(error),
            Ok((start, end)) => match crate::cluster::cluster_info_of(
                self.data[start as int],
                self.header.major_version,
            ) {
                Err(error) => Err(error),
                Ok(info) => match crate::cluster::decompressed(
                    info.compression,
                    self.data.subrange(start as int + 1, end as int),
                ) {
                    Err(error) => Err(error),
                    Ok(payload) => Ok((info, payload)),
                },
            },
        }
    }

    /// Reading blob `blob_number` of cluster `cluster_number`.
    pub open spec fn blob_at(self, cluster_number: u32, blob_number: u32) -> Result<
        Seq<u8>,
        ErrorView,
    > {
        match self.cluster_data(cluster_number as int) {
            Err(error) => Err(error),
            Ok((info, payload)) => crate::cluster::blob_of(payload, blob_number, info.extended),
        }
    }

    /// Following redirects from entry `idx` on, given the entries that were
    /// passed. Each is passed once, and there are at most
    /// [`MAX_REDIRECT_DEPTH`] of them.
    pub open spec fn resolve_from(self, idx: u32, passed: Seq<u32>) -> Result<
        ContentView,
        ErrorView,
    >
        decreases MAX_REDIRECT_DEPTH - passed.len(),
    {
        if idx >= self.header.entry_count {
            Err(ErrorView::RedirectIndexOutOfRange(idx as int))
        } else if passed.len() >= MAX_REDIRECT_DEPTH || passed.contains(idx) {
            Err(ErrorView::RedirectLoop(idx as int))
        } else {
            match self.dirent_at(idx as int) {
                Err(error) => Err(error),
                Ok(None) => Err(ErrorView::RedirectIndexOutOfRange(idx as int)),
                Ok(Some(DirentView::Content(entry))) => Ok(entry),
                Ok(Some(DirentView::Redirect(entry))) => self.resolve_from(
                    entry.redirect_index,
                    passed.push(idx),
                ),
            }
        }
    }

    /// The content entry that an entry stands for: itself, or what its
    /// redirects lead to.
    pub open spec fn resolve(self, entry: DirentView) -> Result<ContentView, ErrorView> {
        match entry {
            DirentView::Content(entry) => Ok(entry),
            DirentView::Redirect(entry) => self.resolve_from(entry.redirect_index, Seq::empty()),
        }
    }

    /// Reading the article that an entry stands for.
    pub open spec fn article_of(self, entry: DirentView) -> Result<ArticleView, ErrorView> {
        match self.resolve(entry) {
            Err(error) => Err(error),
            Ok(entry) => match self.blob_at(entry.cluster_number, entry.blob_number) {
                Err(error) => Err(error),
                Ok(data) => Ok(ArticleView { entry, data }),
            },
        }
    }

    /// Reading the article that an entry stands for, if there is an entry.
    pub open spec fn article_of_found(self, found: Result<Option<DirentView>, ErrorView>) -> Result<
        Option<ArticleView>,
        ErrorView,
    > {
        match found {
            Err(error) => Err(error),
            Ok(None) => Ok(None),
            Ok(Some(entry)) => match self.article_of(entry) {
                Err(error) => Err(error),
                Ok(article) => Ok(Some(article)),
            },
        }
    }

    /// Reading the article of a path.
    pub open spec fn get_article(self, path: Seq<char>) -> Result<Option<ArticleView>, ErrorView> {
        self.article_of_found(self.find_by_path(None, path))
    }

    /// Reading the article of the main page, if the header names one.
    pub open spec fn main_page(self) -> Result<Option<ArticleView>, ErrorView> {
        match self.header.main_page {
            None => Ok(None),
            Some(idx) => self.article_of_found(self.dirent_at(idx as int)),
        }
    }

    /// Reading the text of a metadata entry.
    pub open spec fn metadata(self, key: Seq<char>) -> Result<Option<Seq<char>>, ErrorView> {
        let namespace = crate::namespace::metadata_namespace_of(self.namespace_mode);
        match self.article_of_found(self.find_by_path(Some(namespace), key)) {
            Err(error) => Err(error),
            Ok(None) => Ok(None),
            Ok(Some(article)) => match crate::article::text_of(article.data) {
                None => Err(ErrorView::InvalidUtf8(0)),
                Some(text) => Ok(Some(text)),
            },
        }
    }
}

/// Tells whether an entry was passed.
fn was_passed(passed: &Vec<u32>, idx: u32) -> (yes: bool)
    ensures
        yes == passed@.contains(idx),
{
    let mut i: usize = 0;
    while i < passed.len()
        invariant
            i <= passed@.len(),
            forall|j: int| 0 <= j < i ==> passed@[j] != idx,
        decreases passed@.len() - i,
    {
        if passed[i] == idx {
            return true;
        }
        i = i + 1;
    }
    false
}

impl<'a> Archive<'a> {
    /// Reads where cluster `number` starts and ends.
    fn cluster_range(&self, number: u32) -> (res: Result<(usize, usize), Error>)
        ensures
            match res {
                Ok((start, end)) => {
                    &&& self@.cluster_range(number as int) == Ok::<(nat, nat), ErrorView>(
                        (start as nat, end as nat),
                    )
                    &&& start < end <= self@.data.len()
                },
                Err(error) => self@.cluster_range(number as int) == Err::<(nat, nat), ErrorView>(
                    error@,
                ),
            },
    {
        if number >= self.cluster_count() {
            return Err(
                Error::OffsetOutOfBounds { offset: number as u64, field: "cluster_number" },
            );
        }
        let list: u64 = self.header().cluster_ptr_pos;
        let start: u64 = match cluster_ptr(self.data(), list, number) {
            Ok(start) => start,
            Err(error) => {
                return Err(error);
            },
        };
        let end: u64 = if number < self.cluster_count() - 1 {
            match cluster_ptr(self.data(), list, number + 1) {
                Ok(end) => end,
                Err(error) => {
                    return Err(error);
                },
            }
        } else {
            self.header().checksum_pos
        };
        let len: u64 = self.data().len() as u64;
        if start >= len {
            return Err(Error::OffsetOutOfBounds { offset: start, field: "cluster_start" });
        }
        if end <= start || end > len {
            return Err(Error::OffsetOutOfBounds { offset: end, field: "cluster_end" });
        }
        Ok((start as usize, end as usize))
    }

    /// Reads and decompresses cluster `number`.
    pub fn cluster_data(&self, number: u32) -> (res: Result<(ClusterInfo, Vec<u8>), Error>)
        ensures
            outcome(res) == self@.cluster_data(number as int),
    {
        let (start, end): (usize, usize) = match self.cluster_range(number) {
            Ok(range) => range,
            Err(error) => {
                return Err(error);
            },
        };
        let data: &[u8] = self.data();
        let info: ClusterInfo = match ClusterInfo::from_byte(
            data[start],
            self.header().major_version,
        ) {
            Ok(info) => info,
            Err(error) => {
                return Err(error);
            },
        };
        match decompress(&info, &data[start + 1..end]) {
            Ok(payload) => Ok((info, payload)),
            Err(error) => Err(error),
        }
    }

    /// Reads the raw blob bytes of a content entry.
    pub fn get_blob(&self, entry: &ContentEntry) -> (res: Result<Vec<u8>, Error>)
        ensures
            outcome(res) == self@.blob_at(entry@.cluster_number, entry@.blob_number),
    {
        match self.cluster_data(entry.cluster_number) {
            Ok((info, payload)) => {
                assert(payload.deep_view() =~= payload@);
                extract_blob(payload.as_slice(), entry.blob_number, info.extended)
            },
            Err(error) => Err(error),
        }
    }

    /// Follows a redirect, through at most [`MAX_REDIRECT_DEPTH`] entries, to
    /// the content entry that it leads to. Coming back to an entry, or going
    /// further than that, is an [`Error::RedirectLoop`].
    pub fn resolve_redirect(&self, entry: &RedirectEntry) -> (res: Result<ContentEntry, Error>)
        ensures
            outcome(res) == self@.resolve(DirentView::Redirect(entry@)),
    {
        let count: u32 = self.entry_count();
        let mut idx: u32 = entry.redirect_index;
        let mut passed: Vec<u32> = Vec::new();
        loop
            invariant
                count == self@.header.entry_count,
                passed@.len() <= MAX_REDIRECT_DEPTH,
                self@.resolve_from(idx, passed@) == self@.resolve(DirentView::Redirect(entry@)),
            decreases MAX_REDIRECT_DEPTH - passed@.len(),
        {
            if idx >= count {
                return Err(Error::RedirectIndexOutOfRange(idx));
            }
            if passed.len() >= MAX_REDIRECT_DEPTH || was_passed(&passed, idx) {
                return Err(Error::RedirectLoop(idx));
            }
            match self.dirent_at(idx) {
                Ok(Some(Dirent::Content(content))) => {
                    return Ok(content);
                },
                Ok(Some(Dirent::Redirect(next))) => {
                    passed.push(idx);
                    idx = next.redirect_index;
                },
                Ok(None) => {
                    return Err(Error::RedirectIndexOutOfRange(idx));
                },
                Err(error) => {
                    return Err(error);
                },
            }
        }
    }

    /// Reads the article that an entry stands for.
    fn article_of(&self, entry: Dirent) -> (res: Result<Article, Error>)
        ensures
            outcome(res) == self@.article_of(entry@),
    {
        let content: ContentEntry = match entry {
            Dirent::Content(content) => content,
            Dirent::Redirect(redirect) => match self.resolve_redirect(&redirect) {
                Ok(content) => content,
                Err(error) => {
                    return Err(error);
                },
            },
        };
        match self.get_blob(&content) {
            Ok(data) => {
                assert(data.deep_view() =~= data@);
                Ok(Article { entry: content, data })
            },
            Err(error) => Err(error),
        }
    }

    /// Reads the article that an entry stands for, if there is an entry.
    fn article_of_found(&self, found: Result<Option<Dirent>, Error>) -> (res: Result<
        Option<Article>,
        Error,
    >)
        ensures
            outcome(res) == self@.article_of_found(outcome(found)),
    {
        match found {
            Ok(Some(entry)) => match self.article_of(entry) {
                Ok(article) => Ok(Some(article)),
                Err(error) => Err(error),
            },
            Ok(None) => Ok(None),
            Err(error) => Err(error),
        }
    }

    /// Finds an article by path, following redirects, and reads its content.
    pub fn get_article(&self, path: &str) -> (res: Result<Option<Article>, Error>)
        ensures
            outcome(res) == self@.get_article(path@),
    {
        self.article_of_found(self.find_by_path(None, path))
    }

    /// Reads the main page, if the header names one.
    pub fn main_page(&self) -> (res: Result<Option<Article>, Error>)
        ensures
            outcome(res) == self@.main_page(),
    {
        match self.header().main_page {
            Some(idx) => self.article_of_found(self.dirent_at(idx)),
            None => Ok(None),
        }
    }

    /// Reads a metadata value (such as "Title", "Language" or "Description")
    /// from the metadata namespace. The value has to be UTF-8 text.
    pub fn metadata(&self, key: &str) -> (res: Result<Option<String>, Error>)
        ensures
            outcome(res) == self@.metadata(key@),
    {
        let namespace: char = metadata_namespace(self.namespace_mode());
        match self.article_of_found(self.find_by_path(Some(namespace), key)) {
            Ok(Some(article)) => match article.as_text() {
                Some(text) => Ok(Some(text.to_owned())),
                None => Err(Error::InvalidUtf8(0)),
            },
            Ok(None) => Ok(None),
            Err(error) => Err(error),
        }
    }
}

/// Reading a blob gives back what was stored: where a cluster decompresses to
/// a payload with these blobs, blob `blob_number` is the one of that number.
pub proof fn stored_blob_is_read_back(
    archive: ArchiveView,
    cluster_number: u32,
    extended: bool,
    blobs: Seq<Seq<u8>>,
    blob_number: u32,
)
    requires
        crate::cluster::can_be_stored(blobs, extended),
        blob_number < blobs.len(),
        archive.cluster_data(cluster_number as int) matches Ok((info, payload)) && info.extended
            == extended && payload == crate::cluster::payload_bytes(blobs, extended),
    ensures
        archive.blob_at(cluster_number, blob_number) == Ok::<Seq<u8>, ErrorView>(
            blobs[blob_number as int],
        ),
{
    let payload = crate::cluster::payload_bytes(blobs, extended);
    crate::cluster::blob_is_read_back(blobs, extended, blob_number, Seq::empty());
    assert(payload + Seq::<u8>::empty() =~= payload);
}

/// A cluster whose bytes are an info byte for no compression and a stored
/// payload decompresses to that payload.
pub proof fn uncompressed_cluster_is_read_back(
    archive: ArchiveView,
    number: int,
    start: nat,
    end: nat,
    info: ClusterInfo,
    payload: Seq<u8>,
)
    requires
        archive.cluster_range(number) == Ok::<(nat, nat), ErrorView>((start, end)),
        crate::cluster::cluster_info_of(archive.data[start as int], archive.header.major_version)
            == Ok::<ClusterInfo, ErrorView>(info),
        info.compression == crate::cluster::UNCOMPRESSED_A || info.compression
            == crate::cluster::UNCOMPRESSED_B,
        archive.data.subrange(start as int + 1, end as int) == payload,
    ensures
        archive.cluster_data(number) == Ok::<(ClusterInfo, Seq<u8>), ErrorView>((info, payload)),
{
}

/// Whether entries follow each other by redirects: each but the last is a
/// redirect to the next, and no entry occurs twice.
pub open spec fn is_redirect_chain(archive: ArchiveView, chain: Seq<u32>) -> bool {
    &&& chain.len() > 0
    &&& forall|k: int|
        0 <= k < chain.len() ==> (#[trigger] chain[k]) < archive.header.entry_count
    &&& forall|k: int|
        0 <= k < chain.len() - 1 ==> redirects_to(archive, #[trigger] chain[k], chain[k + 1])
    &&& chain.no_duplicates()
}

/// Whether an entry is a redirect to another.
pub open spec fn redirects_to(archive: ArchiveView, idx: u32, target: u32) -> bool {
    archive.dirent_at(idx as int) matches Ok(Some(DirentView::Redirect(entry)))
        && entry.redirect_index == target
}

/// Following a chain from its start passes each of its entries.
proof fn lemma_follow(archive: ArchiveView, chain: Seq<u32>, k: int)
    requires
        is_redirect_chain(archive, chain),
        0 <= k < chain.len(),
        k <= MAX_REDIRECT_DEPTH,
    ensures
        archive.resolve_from(chain[0], Seq::empty()) == archive.resolve_from(
            chain[k],
            chain.take(k),
        ),
    decreases k,
{
    if k == 0 {
        assert(chain.take(0) =~= Seq::empty());
    } else {
        lemma_follow(archive, chain, k - 1);
        let passed = chain.take(k - 1);
        let idx = chain[k - 1];
        assert(!passed.contains(idx));
        assert(redirects_to(archive, idx, chain[k]));
        assert(passed.push(idx) =~= chain.take(k));
    }
}

/// A chain of redirects that ends in a content entry leads to that entry, if
/// it has at most [`MAX_REDIRECT_DEPTH`] entries.
pub proof fn redirects_lead_to_content(
    archive: ArchiveView,
    redirect: crate::dirent::RedirectView,
    chain: Seq<u32>,
    content: ContentView,
)
    requires
        is_redirect_chain(archive, chain),
        chain.len() <= MAX_REDIRECT_DEPTH,
        redirect.redirect_index == chain[0],
        archive.dirent_at(chain.last() as int) == Ok::<Option<DirentView>, ErrorView>(
            Some(DirentView::Content(content)),
        ),
    ensures
        archive.resolve(DirentView::Redirect(redirect)) == Ok::<ContentView, ErrorView>(content),
        archive.article_of(DirentView::Redirect(redirect)) == archive.article_of(
            DirentView::Content(content),
        ),
{
    let k = chain.len() - 1;
    lemma_follow(archive, chain, k);
    assert(!chain.take(k).contains(chain[k]));
}

/// A chain of redirects that comes back to one of its entries is a redirect
/// loop at that entry.
pub proof fn redirect_cycle_is_detected(
    archive: ArchiveView,
    redirect: crate::dirent::RedirectView,
    chain: Seq<u32>,
    target: u32,
)
    requires
        is_redirect_chain(archive, chain),
        chain.len() <= MAX_REDIRECT_DEPTH,
        redirect.redirect_index == chain[0],
        redirects_to(archive, chain.last(), target),
        chain.contains(target),
    ensures
        archive.resolve(DirentView::Redirect(redirect)) == Err::<ContentView, ErrorView>(
            ErrorView::RedirectLoop(target as int),
        ),
{
    let k = chain.len() - 1;
    lemma_follow(archive, chain, k);
    assert(!chain.take(k).contains(chain[k]));
    assert(chain.take(k).push(chain[k]) =~= chain);
    assert(chain[chain.index_of(target)] < archive.header.entry_count);
    assert(archive.resolve_from(target, chain) == Err::<ContentView, ErrorView>(
        ErrorView::RedirectLoop(target as int),
    ));
}

/// A chain with more than [`MAX_REDIRECT_DEPTH`] entries is reported as a
/// redirect loop, wherever it leads.
pub proof fn long_redirect_is_rejected(
    archive: ArchiveView,
    redirect: crate::dirent::RedirectView,
    chain: Seq<u32>,
)
    requires
        is_redirect_chain(archive, chain),
        chain.len() > MAX_REDIRECT_DEPTH,
        redirect.redirect_index == chain[0],
    ensures
        archive.resolve(DirentView::Redirect(redirect)) == Err::<ContentView, ErrorView>(
            ErrorView::RedirectLoop(chain[MAX_REDIRECT_DEPTH as int] as int),
        ),
{
    lemma_follow(archive, chain, MAX_REDIRECT_DEPTH as int);
}

/// What redirects lead to is a content entry of the archive.
pub proof fn resolved_entry_is_in_archive(archive: ArchiveView, idx: u32, passed: Seq<u32>)
    ensures
        archive.resolve_from(idx, passed) matches Ok(content) ==> exists|i: u32|
            i < archive.header.entry_count && #[trigger] archive.dirent_at(i as int) == Ok::<
                Option<DirentView>,
                ErrorView,
            >(Some(DirentView::Content(content))),
    decreases MAX_REDIRECT_DEPTH - passed.len(),
{
    if idx < archive.header.entry_count && passed.len() < MAX_REDIRECT_DEPTH && !passed.contains(
        idx,
    ) {
        if let Ok(Some(DirentView::Redirect(entry))) = archive.dirent_at(idx as int) {
            resolved_entry_is_in_archive(archive, entry.redirect_index, passed.push(idx));
        }
    }
}

/// Every article of a New archive is read by its path alone: `get_article`
/// gives the article that the entry stands for.
pub proof fn article_is_read_by_path(archive: ArchiveView, idx: int, entry: DirentView)
    requires
        archive.valid(),
        archive.namespace_mode == crate::namespace::NamespaceMode::New,
        archive.paths_are_sorted(),
        archive.paths_are_distinct(),
        0 <= idx,
        archive.dirent_at(idx) == Ok::<Option<DirentView>, ErrorView>(Some(entry)),
        entry.namespace() == crate::namespace::article_namespace_of(archive.namespace_mode),
    ensures
        archive.get_article(entry.path()) == archive.article_of_found(Ok(Some(entry))),
{
    crate::lookup::article_is_found_by_path_alone(archive, idx, entry);
}

/// Every article of a Legacy archive is read by its namespace, a slash and its
/// path.
pub proof fn article_is_read_by_prefixed_path(archive: ArchiveView, idx: int, entry: DirentView)
    requires
        archive.valid(),
        archive.namespace_mode == crate::namespace::NamespaceMode::Legacy,
        archive.paths_are_sorted(),
        archive.paths_are_distinct(),
        0 <= idx,
        archive.dirent_at(idx) == Ok::<Option<DirentView>, ErrorView>(Some(entry)),
    ensures
        archive.get_article(seq![entry.namespace(), '/'] + entry.path())
            == archive.article_of_found(Ok(Some(entry))),
{
    crate::lookup::entry_is_found_by_prefixed_path(archive, idx, entry);
}

/// Whether an archive holds a content entry at index `idx`, as it is stored
/// between `before` and `after`, and its blob in a cluster with these blobs.
pub open spec fn holds_entry(
    archive: ArchiveView,
    idx: int,
    before: Seq<u8>,
    entry: ContentView,
    parameter_len: u8,
    stored: Seq<char>,
    after: Seq<u8>,
    blobs: Seq<Seq<u8>>,
) -> bool {
    &&& 0 <= idx < archive.header.entry_count
    &&& archive.entry_offset(idx) == Ok::<nat, ErrorView>(before.len())
    &&& archive.data == before + crate::dirent::content_bytes(entry, parameter_len, stored) + after
    &&& entry.mime_type_idx < archive.mime_types.len()
    &&& entry.mime_type_idx < crate::dirent::MIME_DELETED
    &&& crate::dirent::is_namespace(entry.namespace)
    &&& !entry.path.contains('\0')
    &&& !stored.contains('\0')
    &&& entry.title == crate::dirent::effective_title(entry.path, stored)
    &&& entry.blob_number < blobs.len()
    &&& archive.cluster_data(entry.cluster_number as int) matches Ok((info, payload))
        && crate::cluster::can_be_stored(blobs, info.extended) && payload
        == crate::cluster::payload_bytes(blobs, info.extended)
}

/// An entry that an archive holds is read with its blob.
proof fn lemma_held_entry(
    archive: ArchiveView,
    idx: int,
    before: Seq<u8>,
    entry: ContentView,
    parameter_len: u8,
    stored: Seq<char>,
    after: Seq<u8>,
    blobs: Seq<Seq<u8>>,
)
    requires
        archive.valid(),
        holds_entry(archive, idx, before, entry, parameter_len, stored, after, blobs),
    ensures
        archive.dirent_at(idx) == Ok::<Option<DirentView>, ErrorView>(
            Some(DirentView::Content(entry)),
        ),
        archive.article_of(DirentView::Content(entry)) == Ok::<ArticleView, ErrorView>(
            ArticleView { entry, data: blobs[entry.blob_number as int] },
        ),
{
    crate::util::le_value_is_bounded(Seq::empty(), entry.mime_type_idx as nat, 2);
    crate::util::le_value_is_bounded(Seq::empty(), entry.revision as nat, 4);
    crate::dirent::content_is_read_back(
        before,
        entry,
        parameter_len,
        stored,
        after,
        archive.mime_types.len(),
    );
    let extended = (archive.cluster_data(entry.cluster_number as int)->Ok_0).0.extended;
    stored_blob_is_read_back(archive, entry.cluster_number, extended, blobs, entry.blob_number);
}

/// What an archive holds is what reading gives: an article is read back with
/// its entry and its bytes, in a New archive by its path and in a Legacy
/// archive by its namespace, a slash and its path.
pub proof fn stored_article_is_read_back(
    archive: ArchiveView,
    idx: int,
    before: Seq<u8>,
    entry: ContentView,
    parameter_len: u8,
    stored: Seq<char>,
    after: Seq<u8>,
    blobs: Seq<Seq<u8>>,
)
    requires
        archive.valid(),
        archive.paths_are_sorted(),
        archive.paths_are_distinct(),
        holds_entry(archive, idx, before, entry, parameter_len, stored, after, blobs),
    ensures
        archive.namespace_mode == crate::namespace::NamespaceMode::New && entry.namespace
            == crate::namespace::article_namespace_of(archive.namespace_mode)
            ==> archive.get_article(entry.path) == Ok::<Option<ArticleView>, ErrorView>(
            Some(ArticleView { entry, data: blobs[entry.blob_number as int] }),
        ),
        archive.namespace_mode == crate::namespace::NamespaceMode::Legacy ==> archive.get_article(
            seq![entry.namespace, '/'] + entry.path,
        ) == Ok::<Option<ArticleView>, ErrorView>(
            Some(ArticleView { entry, data: blobs[entry.blob_number as int] }),
        ),
{
    lemma_held_entry(archive, idx, before, entry, parameter_len, stored, after, blobs);
    if archive.namespace_mode == crate::namespace::NamespaceMode::Legacy {
        article_is_read_by_prefixed_path(archive, idx, DirentView::Content(entry));
    } else if entry.namespace == crate::namespace::article_namespace_of(archive.namespace_mode) {
        article_is_read_by_path(archive, idx, DirentView::Content(entry));
    }
}

/// The main page is the article of the entry that the header names.
pub proof fn stored_main_page_is_read_back(
    archive: ArchiveView,
    idx: u32,
    before: Seq<u8>,
    entry: ContentView,
    parameter_len: u8,
    stored: Seq<char>,
    after: Seq<u8>,
    blobs: Seq<Seq<u8>>,
)
    requires
        archive.valid(),
        archive.header.main_page == Some(idx),
        holds_entry(archive, idx as int, before, entry, parameter_len, stored, after, blobs),
    ensures
        archive.main_page() == Ok::<Option<ArticleView>, ErrorView>(
            Some(ArticleView { entry, data: blobs[entry.blob_number as int] }),
        ),
{
    lemma_held_entry(archive, idx as int, before, entry, parameter_len, stored, after, blobs);
}

/// The value of a metadata entry is the text that its blob holds.
pub proof fn stored_metadata_is_read_back(
    archive: ArchiveView,
    idx: int,
    before: Seq<u8>,
    entry: ContentView,
    parameter_len: u8,
    stored: Seq<char>,
    after: Seq<u8>,
    blobs: Seq<Seq<u8>>,
    value: Seq<char>,
)
    requires
        archive.valid(),
        archive.paths_are_sorted(),
        archive.paths_are_distinct(),
        holds_entry(archive, idx, before, entry, parameter_len, stored, after, blobs),
        entry.namespace == crate::namespace::metadata_namespace_of(archive.namespace_mode),
        blobs[entry.blob_number as int] == encode_utf8(value),
    ensures
        archive.metadata(entry.path) == Ok::<Option<Seq<char>>, ErrorView>(Some(value)),
{
    lemma_held_entry(archive, idx, before, entry, parameter_len, stored, after, blobs);
    crate::lookup::entry_is_found_by_path(archive, idx, DirentView::Content(entry));
    encode_utf8_valid_utf8(value);
    encode_utf8_decode_utf8(value);
}

/// A metadata key that no entry has gives nothing, where the path pointer list
/// is sorted.
pub proof fn absent_metadata_is_nothing(archive: ArchiveView, key: Seq<char>)
    requires
        archive.paths_are_sorted(),
        forall|idx: int|
            0 <= idx < archive.header.entry_count ==> #[trigger] archive.path_key(idx) != Ok::<
                Seq<u8>,
                ErrorView,
            >(
                encode_utf8(
                    crate::lookup::full_name(
                        crate::namespace::metadata_namespace_of(archive.namespace_mode),
                        key,
                    ),
                ),
            ),
    ensures
        archive.metadata(key) == Ok::<Option<Seq<char>>, ErrorView>(None),
{
    crate::lookup::absent_path_is_not_found(
        archive,
        crate::namespace::metadata_namespace_of(archive.namespace_mode),
        key,
    );
}

/// The number in pointer `number` of the cluster pointer list.
pub open spec fn cluster_pointer(archive: ArchiveView, number: int) -> nat {
    let at = archive.header.cluster_ptr_pos + 8 * number;
    crate::util::le_value(archive.data.subrange(at, at + 8))
}

/// A cluster starts where its own pointer in the cluster pointer list points
/// to, and ends where the pointer behind it points to, or the last one where
/// the checksum starts. It is read exactly if it has at least one byte and lies
/// inside the file.
pub proof fn cluster_stands_between_its_pointers(archive: ArchiveView, number: int)
    requires
        archive.valid(),
        0 <= number < archive.header.cluster_count,
    ensures
        ({
            let is_last = number == archive.header.cluster_count - 1;
            let start = cluster_pointer(archive, number);
            let end = if is_last {
                archive.header.checksum_pos as nat
            } else {
                cluster_pointer(archive, number + 1)
            };
            let list_end = archive.header.cluster_ptr_pos + 8 * (number + if is_last {
                1int
            } else {
                2
            });
            match archive.cluster_range(number) {
                Ok(range) => {
                    &&& range == (start, end)
                    &&& start < end <= archive.data.len()
                    &&& list_end <= archive.data.len()
                },
                Err(error) => {
                    &&& error is OffsetOutOfBounds
                    &&& start >= end || end > archive.data.len() || list_end > archive.data.len()
                    &&& archive.cluster_data(number) == Err::<(ClusterInfo, Seq<u8>), ErrorView>(
                        error,
                    )
                },
            }
        }),
{
}

/// Clusters beyond their number are not read.
pub proof fn cluster_beyond_the_last_is_an_error(archive: ArchiveView, number: u32, blob: u32)
    requires
        number >= archive.header.cluster_count,
    ensures
        archive.cluster_data(number as int) == Err::<(ClusterInfo, Seq<u8>), ErrorView>(
            ErrorView::OffsetOutOfBounds { offset: number as int, field: "cluster_number"@ },
        ),
        archive.blob_at(number, blob) == Err::<Seq<u8>, ErrorView>(
            ErrorView::OffsetOutOfBounds { offset: number as int, field: "cluster_number"@ },
        ),
{
}

/// What is read of a cluster comes from its first byte, which says how the rest
/// is compressed, and from all its other bytes.
pub proof fn cluster_is_its_first_byte_and_its_payload(
    archive: ArchiveView,
    number: int,
    start: nat,
    end: nat,
)
    requires
        archive.cluster_range(number) == Ok::<(nat, nat), ErrorView>((start, end)),
        start < end <= archive.data.len(),
    ensures
        ({
            let bytes = archive.data.subrange(start as int, end as int);
            let info = crate::cluster::cluster_info_of(bytes[0], archive.header.major_version);
            match archive.cluster_data(number) {
                Ok((said, payload)) => {
                    &&& info == Ok::<ClusterInfo, ErrorView>(said)
                    &&& crate::cluster::decompressed(said.compression, bytes.skip(1)) == Ok::<
                        Seq<u8>,
                        ErrorView,
                    >(payload)
                },
                Err(error) => {
                    ||| info == Err::<ClusterInfo, ErrorView>(error)
                    ||| info matches Ok(said) && crate::cluster::decompressed(
                        said.compression,
                        bytes.skip(1),
                    ) == Err::<Seq<u8>, ErrorView>(error)
                },
            }
        }),
{
    let bytes = archive.data.subrange(start as int, end as int);
    assert(bytes.skip(1) =~= archive.data.subrange(start as int + 1, end as int));
}

/// A cluster is read by its number: where uncompressed blobs are stored from
/// where pointer `number` points to up to where the cluster ends, blob
/// `blob_number` of cluster `number` is the one of that number among them.
pub proof fn blob_is_read_from_the_cluster_of_its_number(
    archive: ArchiveView,
    number: u32,
    end: nat,
    byte: u8,
    blobs: Seq<Seq<u8>>,
    blob_number: u32,
)
    requires
        archive.valid(),
        number < archive.header.cluster_count,
        archive.header.cluster_ptr_pos + 8 * archive.header.cluster_count <= archive.data.len(),
        end == if number == archive.header.cluster_count - 1 {
            archive.header.checksum_pos as nat
        } else {
            cluster_pointer(archive, number + 1)
        },
        cluster_pointer(archive, number as int) < end <= archive.data.len(),
        byte == 0 || byte == 1 || archive.header.major_version == 6 && (byte == 16 || byte == 17),
        crate::cluster::can_be_stored(blobs, byte >= 16),
        archive.data.subrange(cluster_pointer(archive, number as int) as int, end as int) == seq![
            byte,
        ] + crate::cluster::payload_bytes(blobs, byte >= 16),
        blob_number < blobs.len(),
    ensures
        archive.blob_at(number, blob_number) == Ok::<Seq<u8>, ErrorView>(
            blobs[blob_number as int],
        ),
{
    let start = cluster_pointer(archive, number as int);
    let payload = crate::cluster::payload_bytes(blobs, byte >= 16);
    let bytes = archive.data.subrange(start as int, end as int);
    cluster_stands_between_its_pointers(archive, number as int);
    cluster_is_its_first_byte_and_its_payload(archive, number as int, start, end);
    assert(bytes[0] == byte);
    assert(bytes.skip(1) =~= payload);
    stored_blob_is_read_back(archive, number, byte >= 16, blobs, blob_number);
}

/// A blob is cut out of the payload of its own cluster.
pub proof fn blob_comes_from_its_cluster(
    archive: ArchiveView,
    cluster_number: u32,
    blob_number: u32,
)
    ensures
        match (
            archive.cluster_data(cluster_number as int),
            archive.blob_at(cluster_number, blob_number),
        ) {
            (Ok((info, payload)), blob) => blob == crate::cluster::blob_of(
                payload,
                blob_number,
                info.extended,
            ),
            (Err(error), blob) => blob == Err::<Seq<u8>, ErrorView>(error),
        },
{
}

/// A redirect is followed through up to eight entries that are all different,
/// and no further.
pub proof fn redirects_are_followed_through_eight_entries(
    archive: ArchiveView,
    redirect: crate::dirent::RedirectView,
    chain: Seq<u32>,
)
    requires
        is_redirect_chain(archive, chain),
        redirect.redirect_index == chain[0],
    ensures
        chain.len() <= 8 ==> match archive.dirent_at(chain.last() as int) {
            Ok(Some(DirentView::Content(content))) => archive.resolve(
                DirentView::Redirect(redirect),
            ) == Ok::<ContentView, ErrorView>(content),
            Ok(Some(DirentView::Redirect(_))) => true,
            Ok(None) => archive.resolve(DirentView::Redirect(redirect)) == Err::<
                ContentView,
                ErrorView,
            >(ErrorView::RedirectIndexOutOfRange(chain.last() as int)),
            Err(error) => archive.resolve(DirentView::Redirect(redirect)) == Err::<
                ContentView,
                ErrorView,
            >(error),
        },
        chain.len() > 8 ==> archive.resolve(DirentView::Redirect(redirect)) == Err::<
            ContentView,
            ErrorView,
        >(ErrorView::RedirectLoop(chain[8] as int)),
{
    if chain.len() <= 8 {
        let k = chain.len() - 1;
        lemma_follow(archive, chain, k);
        assert(!chain.take(k).contains(chain[k]));
        assert(chain[k] < archive.header.entry_count);
    } else {
        long_redirect_is_rejected(archive, redirect, chain);
    }
}

/// A redirect to an index that no entry has is an error that names the index,
/// at once or at the end of a chain of up to eight redirects.
pub proof fn redirect_to_no_entry_is_an_error(
    archive: ArchiveView,
    redirect: crate::dirent::RedirectView,
    chain: Seq<u32>,
    target: u32,
)
    requires
        target >= archive.header.entry_count,
        redirect.redirect_index == target || is_redirect_chain(archive, chain) && chain.len() <= 8
            && redirect.redirect_index == chain[0] && redirects_to(archive, chain.last(), target),
    ensures
        archive.resolve(DirentView::Redirect(redirect)) == Err::<ContentView, ErrorView>(
            ErrorView::RedirectIndexOutOfRange(target as int),
        ),
{
    if redirect.redirect_index != target {
        let k = chain.len() - 1;
        lemma_follow(archive, chain, k);
        assert(!chain.take(k).contains(chain[k]));
        assert(chain[k] < archive.header.entry_count);
        assert(archive.resolve_from(target, chain.take(k).push(chain[k])) == Err::<
            ContentView,
            ErrorView,
        >(ErrorView::RedirectIndexOutOfRange(target as int)));
    }
}

/// A content entry stands for itself.
pub proof fn content_stands_for_itself(archive: ArchiveView, entry: ContentView)
    ensures
        archive.resolve(DirentView::Content(entry)) == Ok::<ContentView, ErrorView>(entry),
{
}

/// The article of an entry is the content entry that it stands for, with the
/// blob that this content entry points to; it is read exactly if both are.
pub proof fn article_is_its_entry_with_its_blob(archive: ArchiveView, entry: DirentView)
    ensures
        match archive.article_of(entry) {
            Ok(article) => {
                &&& archive.resolve(entry) == Ok::<ContentView, ErrorView>(article.entry)
                &&& archive.blob_at(article.entry.cluster_number, article.entry.blob_number)
                    == Ok::<Seq<u8>, ErrorView>(article.data)
            },
            Err(error) => {
                ||| archive.resolve(entry) == Err::<ContentView, ErrorView>(error)
                ||| archive.resolve(entry) matches Ok(content) && archive.blob_at(
                    content.cluster_number,
                    content.blob_number,
                ) == Err::<Seq<u8>, ErrorView>(error)
            },
        },
{
}

/// The article of a path is that of the entry that the path finds: there is
/// none exactly if nothing is found.
pub proof fn article_of_a_path_is_that_of_its_entry(archive: ArchiveView, path: Seq<char>)
    ensures
        match archive.find_by_path(None, path) {
            Ok(Some(entry)) => match archive.get_article(path) {
                Ok(Some(article)) => archive.article_of(entry) == Ok::<ArticleView, ErrorView>(
                    article,
                ),
                Ok(None) => false,
                Err(error) => archive.article_of(entry) == Err::<ArticleView, ErrorView>(error),
            },
            Ok(None) => archive.get_article(path) == Ok::<Option<ArticleView>, ErrorView>(None),
            Err(error) => archive.get_article(path) == Err::<Option<ArticleView>, ErrorView>(error),
        },
{
}

/// A path that no article has gives no article, where the path pointer list is
/// sorted and the path does not start with a namespace and a slash; entries of
/// other namespaces with the same path do not stand in for it.
pub proof fn absent_article_is_nothing(archive: ArchiveView, path: Seq<char>)
    requires
        archive.paths_are_sorted(),
        path.len() < 2 || path[1] != '/' || path[0] < '!' || path[0] > '~',
        forall|idx: int|
            0 <= idx < archive.header.entry_count ==> #[trigger] archive.path_key(idx) != Ok::<
                Seq<u8>,
                ErrorView,
            >(
                encode_utf8(
                    seq![
                        if archive.namespace_mode == crate::namespace::NamespaceMode::New {
                            'C'
                        } else {
                            'A'
                        },
                    ] + path,
                ),
            ),
    ensures
        archive.get_article(path) == Ok::<Option<ArticleView>, ErrorView>(None),
{
    crate::lookup::path_that_no_entry_has_is_not_found(
        archive,
        if archive.namespace_mode == crate::namespace::NamespaceMode::New {
            'C'
        } else {
            'A'
        },
        path,
    );
}

/// Where a path is read as an article, its data is the blob of a content entry
/// of the archive: of one that has the path, or one that the redirects from it
/// lead to.
pub proof fn article_that_is_read_is_in_the_archive(
    archive: ArchiveView,
    path: Seq<char>,
    article: ArticleView,
)
    requires
        archive.valid(),
        archive.get_article(path) == Ok::<Option<ArticleView>, ErrorView>(Some(article)),
    ensures
        exists|idx: int|
            0 <= idx < archive.header.entry_count && #[trigger] archive.dirent_at(idx) == Ok::<
                Option<DirentView>,
                ErrorView,
            >(Some(DirentView::Content(article.entry))),
        archive.blob_at(article.entry.cluster_number, article.entry.blob_number) == Ok::<
            Seq<u8>,
            ErrorView,
        >(article.data),
{
    let entry = archive.find_by_path(None, path)->Ok_0->Some_0;
    crate::lookup::found_entry_is_an_article_or_in_the_namespace_of_the_path(archive, path, entry);
    if let DirentView::Redirect(redirect) = entry {
        resolved_entry_is_in_archive(archive, redirect.redirect_index, Seq::empty());
        let i = choose|i: u32|
            i < archive.header.entry_count && #[trigger] archive.dirent_at(i as int) == Ok::<
                Option<DirentView>,
                ErrorView,
            >(Some(DirentView::Content(article.entry)));
        assert(0 <= (i as int) && (i as int) < archive.header.entry_count);
    }
}

/// The main page is the article of the entry that the header names, and there
/// is none if the header names none or that entry is deprecated.
pub proof fn main_page_is_the_article_of_its_entry(archive: ArchiveView)
    ensures
        match archive.header.main_page {
            None => archive.main_page() == Ok::<Option<ArticleView>, ErrorView>(None),
            Some(idx) => match archive.dirent_at(idx as int) {
                Ok(Some(entry)) => match archive.main_page() {
                    Ok(Some(article)) => archive.article_of(entry) == Ok::<ArticleView, ErrorView>(
                        article,
                    ),
                    Ok(None) => false,
                    Err(error) => archive.article_of(entry) == Err::<ArticleView, ErrorView>(error),
                },
                Ok(None) => archive.main_page() == Ok::<Option<ArticleView>, ErrorView>(None),
                Err(error) => archive.main_page() == Err::<Option<ArticleView>, ErrorView>(error),
            },
        },
{
}

/// A metadata value is the text that the blob of its entry spells in UTF-8; the
/// entry is in `M` in New archives and in `-` in Legacy ones. A blob that spells
/// no text is an error.
pub proof fn metadata_is_the_text_of_its_entry(archive: ArchiveView, key: Seq<char>)
    ensures
        ({
            let namespace = if archive.namespace_mode == crate::namespace::NamespaceMode::New {
                'M'
            } else {
                '-'
            };
            match archive.find_by_path(Some(namespace), key) {
                Ok(Some(entry)) => match archive.metadata(key) {
                    Ok(Some(text)) => archive.article_of(entry) matches Ok(article) && article.data
                        == encode_utf8(text),
                    Ok(None) => false,
                    Err(error) => {
                        ||| archive.article_of(entry) == Err::<ArticleView, ErrorView>(error)
                        ||| archive.article_of(entry) matches Ok(article) && !valid_utf8(
                            article.data,
                        ) && error == ErrorView::InvalidUtf8(0)
                    },
                },
                Ok(None) => archive.metadata(key) == Ok::<Option<Seq<char>>, ErrorView>(None),
                Err(error) => archive.metadata(key) == Err::<Option<Seq<char>>, ErrorView>(error),
            }
        }),
{
    let namespace = if archive.namespace_mode == crate::namespace::NamespaceMode::New {
        'M'
    } else {
        '-'
    };
    if let Ok(Some(entry)) = archive.find_by_path(Some(namespace), key) {
        if let Ok(article) = archive.article_of(entry) {
            if valid_utf8(article.data) {
                decode_utf8_encode_utf8(article.data);
            }
        }
    }
}

} // verus!
