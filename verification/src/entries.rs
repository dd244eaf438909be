//! Going through all entries in path order.
use vstd::prelude::*;

use crate::archive::{Archive, ArchiveView};
use crate::dirent::{ContentEntry, ContentView, Dirent, DirentView};
use crate::error::{outcome, Error, ErrorView};
use crate::namespace::article_namespace;

verus! {

/// Lazy iterator over directory entries, in path order.
pub struct EntryIter<'b> {
    archive: &'b Archive<'b>,
    next: u32,
}

/// Lazy iterator over content entries in the article namespace.
pub struct ArticleIter<'b> {
    archive: &'b Archive<'b>,
    next: u32,
}

impl ArchiveView {
    /// What reading the entries from `idx` on gives, one by one, without the
    /// deprecated ones.
    pub open spec fn entries_from(self, idx: int) -> Seq<Result<DirentView, ErrorView>>
        decreases self.header.entry_count - idx,
    {
        if idx >= self.header.entry_count {
            Seq::empty()
        } else {
            match self.dirent_at(idx) {
                Err(error) => seq![Err(error)] + self.entries_from(idx + 1),
                Ok(None) => self.entries_from(idx + 1),
                Ok(Some(entry)) => seq![Ok(entry)] + self.entries_from(idx + 1),
            }
        }
    }

    /// What reading the entries from `idx` on gives, one by one, with only the
    /// content entries in the article namespace and the errors.
    pub open spec fn articles_from(self, idx: int) -> Seq<Result<ContentView, ErrorView>>
        decreases self.header.entry_count - idx,
    {
        if idx >= self.header.entry_count {
            Seq::empty()
        } else {
            match self.dirent_at(idx) {
                Err(error) => seq![Err(error)] + self.articles_from(idx + 1),
                Ok(Some(DirentView::Content(entry))) => if entry.namespace
                    == crate::namespace::article_namespace_of(self.namespace_mode) {
                    seq![Ok(entry)] + self.articles_from(idx + 1)
                } else {
                    self.articles_from(idx + 1)
                },
                _ => self.articles_from(idx + 1),
            }
        }
    }
}

impl<'b> View for EntryIter<'b> {
    type V = Seq<Result<DirentView, ErrorView>>;

    closed spec fn view(&self) -> Seq<Result<DirentView, ErrorView>> {
        self.archive@.entries_from(self.next as int)
    }
}

impl<'b> View for ArticleIter<'b> {
    type V = Seq<Result<ContentView, ErrorView>>;

    closed spec fn view(&self) -> Seq<Result<ContentView, ErrorView>> {
        self.archive@.articles_from(self.next as int)
    }
}

impl<'b> EntryIter<'b> {
    /// Reads the next entry, if there is one.
    pub fn next(&mut self) -> (item: Option<Result<Dirent, Error>>)
        ensures
            match item {
                Some(result) => {
                    &&& old(self)@.len() > 0
                    &&& outcome(result) == old(self)@[0]
                    &&& final(self)@ == old(self)@.drop_first()
                },
                None => old(self)@.len() == 0 && final(self)@.len() == 0,
            },
    {
        let count: u32 = self.archive.entry_count();
        while self.next < count
            invariant
                self.archive == old(self).archive,
                count == self.archive@.header.entry_count,
                self@ == old(self)@,
            decreases count - self.next,
        {
            let idx: u32 = self.next;
            self.next = idx + 1;
            match self.archive.dirent_at(idx) {
                Ok(Some(entry)) => {
                    assert(old(self)@.drop_first() =~= self@);
                    return Some(Ok(entry));
                },
                Ok(None) => {},
                Err(error) => {
                    assert(old(self)@.drop_first() =~= self@);
                    return Some(Err(error));
                },
            }
        }
        None
    }
}

impl<'b> ArticleIter<'b> {
    /// Reads the next content entry in the article namespace, if there is one.
    pub fn next(&mut self) -> (item: Option<Result<ContentEntry, Error>>)
        ensures
            match item {
                Some(result) => {
                    &&& old(self)@.len() > 0
                    &&& outcome(result) == old(self)@[0]
                    &&& final(self)@ == old(self)@.drop_first()
                },
                None => old(self)@.len() == 0 && final(self)@.len() == 0,
            },
    {
        let count: u32 = self.archive.entry_count();
        let articles: char = article_namespace(self.archive.namespace_mode());
        while self.next < count
            invariant
                self.archive == old(self).archive,
                count == self.archive@.header.entry_count,
                articles == crate::namespace::article_namespace_of(self.archive@.namespace_mode),
                self@ == old(self)@,
            decreases count - self.next,
        {
            let idx: u32 = self.next;
            self.next = idx + 1;
            match self.archive.dirent_at(idx) {
                Ok(Some(Dirent::Content(entry))) => {
                    if entry.namespace == articles {
                        assert(old(self)@.drop_first() =~= self@);
                        return Some(Ok(entry));
                    }
                },
                Ok(_) => {},
                Err(error) => {
                    assert(old(self)@.drop_first() =~= self@);
                    return Some(Err(error));
                },
            }
        }
        None
    }
}

impl<'a> Archive<'a> {
    /// Iterates over all directory entries, ordered by path. Deprecated
    /// entries are skipped; an entry that cannot be read gives its error.
    pub fn entries(&self) -> (iter: EntryIter<'_>)
        ensures
            iter@ == self@.entries_from(0),
    {
        EntryIter { archive: self, next: 0 }
    }

    /// Iterates over the content entries in the article namespace.
    pub fn articles(&self) -> (iter: ArticleIter<'_>)
        ensures
            iter@ == self@.articles_from(0),
    {
        ArticleIter { archive: self, next: 0 }
    }
}

/// Iteration gives at most one item for each entry.
pub proof fn entries_are_bounded(archive: ArchiveView, idx: int)
    requires
        0 <= idx <= archive.header.entry_count,
    ensures
        archive.entries_from(idx).len() <= archive.header.entry_count - idx,
    decreases archive.header.entry_count - idx,
{
    if idx < archive.header.entry_count {
        entries_are_bounded(archive, idx + 1);
    }
}

/// If no entry is deprecated, iteration gives exactly one item for each: the
/// entry, or the error of reading it, in path order.
pub proof fn entries_visit_each_once(archive: ArchiveView)
    requires
        forall|i: int|
            0 <= i < archive.header.entry_count ==> #[trigger] archive.dirent_at(i) != Ok::<
                Option<DirentView>,
                ErrorView,
            >(None),
    ensures
        archive.entries_from(0).len() == archive.header.entry_count,
        forall|i: int|
            0 <= i < archive.header.entry_count ==> match #[trigger] archive.dirent_at(i) {
                Ok(Some(entry)) => archive.entries_from(0)[i] == Ok::<DirentView, ErrorView>(entry),
                Ok(None) => false,
                Err(error) => archive.entries_from(0)[i] == Err::<DirentView, ErrorView>(error),
            },
{
    lemma_entries_from(archive, 0);
}

proof fn lemma_entries_from(archive: ArchiveView, idx: int)
    requires
        0 <= idx <= archive.header.entry_count,
        forall|i: int|
            0 <= i < archive.header.entry_count ==> #[trigger] archive.dirent_at(i) != Ok::<
                Option<DirentView>,
                ErrorView,
            >(None),
    ensures
        archive.entries_from(idx).len() == archive.header.entry_count - idx,
        forall|i: int|
            idx <= i < archive.header.entry_count ==> match #[trigger] archive.dirent_at(i) {
                Ok(Some(entry)) => archive.entries_from(idx)[i - idx] == Ok::<
                    DirentView,
                    ErrorView,
                >(entry),
                Ok(None) => false,
                Err(error) => archive.entries_from(idx)[i - idx] == Err::<DirentView, ErrorView>(
                    error,
                ),
            },
    decreases archive.header.entry_count - idx,
{
    if idx < archive.header.entry_count {
        lemma_entries_from(archive, idx + 1);
        assert(archive.dirent_at(idx) != Ok::<Option<DirentView>, ErrorView>(None));
        assert forall|i: int| idx <= i < archive.header.entry_count implies match #[trigger] archive.dirent_at(
            i,
        ) {
            Ok(Some(entry)) => archive.entries_from(idx)[i - idx] == Ok::<DirentView, ErrorView>(
                entry,
            ),
            Ok(None) => false,
            Err(error) => archive.entries_from(idx)[i - idx] == Err::<DirentView, ErrorView>(error),
        } by {
            if i > idx {
                assert(archive.entries_from(idx)[i - idx] == archive.entries_from(idx + 1)[i - (idx
                    + 1)]);
            }
        }
    }
}

/// Iteration over articles gives no more items than iteration over entries.
pub proof fn articles_are_entries(archive: ArchiveView, idx: int)
    ensures
        archive.articles_from(idx).len() <= archive.entries_from(idx).len(),
    decreases archive.header.entry_count - idx,
{
    if idx < archive.header.entry_count {
        articles_are_entries(archive, idx + 1);
    }
}

/// Whether these are the indices, going up, of the entries that iteration gives
/// items for.
pub open spec fn are_indices_of(archive: ArchiveView, indices: Seq<int>, from: int) -> bool {
    &&& forall|k: int|
        0 <= k < indices.len() ==> from <= #[trigger] indices[k] < archive.header.entry_count
    &&& forall|j: int, k: int| 0 <= j < k < indices.len() ==> indices[j] < indices[k]
}

/// Each item of iteration over entries is what reading one entry gives, in path
/// order, and no entry is left out but the deprecated ones.
pub proof fn entries_are_all_but_the_deprecated(archive: ArchiveView, from: int) -> (indices: Seq<
    int,
>)
    requires
        0 <= from,
    ensures
        are_indices_of(archive, indices, from),
        indices.len() == archive.entries_from(from).len(),
        forall|k: int|
            0 <= k < indices.len() ==> match archive.dirent_at(#[trigger] indices[k]) {
                Ok(Some(entry)) => archive.entries_from(from)[k] == Ok::<DirentView, ErrorView>(
                    entry,
                ),
                Err(error) => archive.entries_from(from)[k] == Err::<DirentView, ErrorView>(error),
                Ok(None) => false,
            },
        forall|idx: int|
            from <= idx < archive.header.entry_count && #[trigger] archive.dirent_at(idx) != Ok::<
                Option<DirentView>,
                ErrorView,
            >(None) ==> indices.contains(idx),
    decreases archive.header.entry_count - from,
{
    if from >= archive.header.entry_count {
        Seq::empty()
    } else {
        let later = entries_are_all_but_the_deprecated(archive, from + 1);
        if archive.dirent_at(from) == Ok::<Option<DirentView>, ErrorView>(None) {
            later
        } else {
            let indices = seq![from] + later;
            let items = archive.entries_from(from);
            assert forall|k: int| 0 <= k < indices.len() implies {
                &&& from <= #[trigger] indices[k] < archive.header.entry_count
                &&& match archive.dirent_at(indices[k]) {
                    Ok(Some(entry)) => items[k] == Ok::<DirentView, ErrorView>(entry),
                    Err(error) => items[k] == Err::<DirentView, ErrorView>(error),
                    Ok(None) => false,
                }
            } by {
                if k > 0 {
                    assert(indices[k] == later[k - 1]);
                    assert(items[k] == archive.entries_from(from + 1)[k - 1]);
                }
            }
            assert forall|idx: int|
                from <= idx < archive.header.entry_count && #[trigger] archive.dirent_at(idx)
                    != Ok::<Option<DirentView>, ErrorView>(None) implies indices.contains(idx) by {
                if idx == from {
                    assert(indices[0] == idx);
                } else {
                    assert(indices[later.index_of(idx) + 1] == idx);
                }
            }
            indices
        }
    }
}

/// Each item of iteration over articles is a content entry in the namespace of
/// articles, which is `C` in New archives and `A` in Legacy ones, or the error
/// of reading an entry; they come in path order, and no such entry is left out.
pub proof fn articles_are_the_content_of_their_namespace(archive: ArchiveView, from: int)
    -> (indices: Seq<int>)
    requires
        0 <= from,
    ensures
        are_indices_of(archive, indices, from),
        indices.len() == archive.articles_from(from).len(),
        forall|k: int|
            0 <= k < indices.len() ==> match archive.dirent_at(#[trigger] indices[k]) {
                Ok(Some(DirentView::Content(entry))) => archive.articles_from(from)[k] == Ok::<
                    ContentView,
                    ErrorView,
                >(entry) && is_article(archive, entry),
                Err(error) => archive.articles_from(from)[k] == Err::<ContentView, ErrorView>(
                    error,
                ),
                _ => false,
            },
        forall|idx: int|
            from <= idx < archive.header.entry_count && match #[trigger] archive.dirent_at(idx) {
                Ok(Some(DirentView::Content(entry))) => is_article(archive, entry),
                Ok(_) => false,
                Err(_) => true,
            } ==> indices.contains(idx),
    decreases archive.header.entry_count - from,
{
    if from >= archive.header.entry_count {
        Seq::empty()
    } else {
        let later = articles_are_the_content_of_their_namespace(archive, from + 1);
        let counts = match archive.dirent_at(from) {
            Ok(Some(DirentView::Content(entry))) => is_article(archive, entry),
            Ok(_) => false,
            Err(_) => true,
        };
        if !counts {
            later
        } else {
            let indices = seq![from] + later;
            let items = archive.articles_from(from);
            assert forall|k: int| 0 <= k < indices.len() implies {
                &&& from <= #[trigger] indices[k] < archive.header.entry_count
                &&& match archive.dirent_at(indices[k]) {
                    Ok(Some(DirentView::Content(entry))) => items[k] == Ok::<
                        ContentView,
                        ErrorView,
                    >(entry) && is_article(archive, entry),
                    Err(error) => items[k] == Err::<ContentView, ErrorView>(error),
                    _ => false,
                }
            } by {
                if k > 0 {
                    assert(indices[k] == later[k - 1]);
                    assert(items[k] == archive.articles_from(from + 1)[k - 1]);
                }
            }
            assert forall|idx: int|
                from <= idx < archive.header.entry_count
                    && match #[trigger] archive.dirent_at(idx) {
                    Ok(Some(DirentView::Content(entry))) => is_article(archive, entry),
                    Ok(_) => false,
                    Err(_) => true,
                } implies indices.contains(idx) by {
                if idx == from {
                    assert(indices[0] == idx);
                } else {
                    assert(indices[later.index_of(idx) + 1] == idx);
                }
            }
            indices
        }
    }
}

/// Whether a content entry is an article: in a New archive those in `C` are, in
/// a Legacy archive those in `A`.
pub open spec fn is_article(archive: ArchiveView, entry: ContentView) -> bool {
    match archive.namespace_mode {
        crate::namespace::NamespaceMode::New => entry.namespace == 'C',
        crate::namespace::NamespaceMode::Legacy => entry.namespace == 'A',
    }
}

/// No item of iteration over articles is an entry of another namespace,
/// whatever the archive holds.
pub proof fn every_article_is_in_the_namespace_of_articles(archive: ArchiveView, k: int)
    requires
        0 <= k < archive.articles_from(0).len(),
    ensures
        archive.articles_from(0)[k] matches Ok(entry) ==> is_article(archive, entry) && exists|
            idx: int,
        |
            0 <= idx < archive.header.entry_count && #[trigger] archive.dirent_at(idx) == Ok::<
                Option<DirentView>,
                ErrorView,
            >(Some(DirentView::Content(entry))),
{
    let indices = articles_are_the_content_of_their_namespace(archive, 0);
    assert(0 <= indices[k] < archive.header.entry_count);
}

} // verus!
