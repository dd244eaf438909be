//! Finding directory entries: by index, by path and by title.
use vstd::prelude::*;
use vstd::string::*;
use vstd::utf8::*;

use crate::archive::{Archive, ArchiveView};
use crate::dirent::{read_path_sort_key, read_title_sort_key, Dirent, DirentView};
use crate::error::{outcome, Error, ErrorView};
use crate::namespace::{article_namespace, NamespaceMode};
use crate::order::{compare, starts_with, Order};
use crate::pointer_list::{path_ptr, title_ptr};

verus! {

/// The name by which entries are sorted: the namespace, and the path or title
/// behind it.
pub open spec fn full_name(namespace: char, text: Seq<char>) -> Seq<char> {
    seq![namespace] + text
}

/// A path that starts with a namespace and a slash, as these two parts.
pub open spec fn split_namespace(path: Seq<char>) -> Option<(char, Seq<char>)> {
    if path.len() >= 2 && '!' <= path[0] <= '~' && path[1] == '/' {
        Some((path[0], path.skip(2)))
    } else {
        None
    }
}

/// What a search result says, with the index as an integer.
pub open spec fn index_outcome(result: Result<Option<u32>, Error>) -> Result<
    Option<int>,
    ErrorView,
> {
    match result {
        Ok(Some(idx)) => Ok(Some(idx as int)),
        Ok(None) => Ok(None),
        Err(error) => Err(error@),
    }
}

impl ArchiveView {
    /// Reading where directory entry `idx` starts.
    pub open spec fn entry_offset(self, idx: int) -> Result<nat, ErrorView> {
        if idx >= self.header.entry_count {
            Err(crate::util::out_of_bounds(idx, "entry_index"@))
        } else {
            crate::pointer_list::path_ptr_at(self.data, self.header.path_ptr_pos as int, idx)
        }
    }

    /// Reading directory entry `idx`: nothing for a deprecated entry.
    pub open spec fn dirent_at(self, idx: int) -> Result<Option<DirentView>, ErrorView> {
        match self.entry_offset(idx) {
            Err(error) => Err(error),
            Ok(offset) => crate::dirent::dirent_at(
                self.data,
                crate::util::position_after(offset as int, 0),
                self.mime_types.len(),
            ),
        }
    }

    /// Reading the bytes of namespace and path of directory entry `idx`, by
    /// which the path pointer list is sorted.
    pub open spec fn path_key(self, idx: int) -> Result<Seq<u8>, ErrorView> {
        match self.entry_offset(idx) {
            Err(error) => Err(error),
            Ok(offset) => match crate::dirent::path_sort_key_at(
                self.data,
                crate::util::position_after(offset as int, 0),
            ) {
                Err(error) => Err(error),
                Ok((namespace, path)) => Ok(encode_utf8(full_name(namespace, path))),
            },
        }
    }

    /// Reading the entry index at `rank` of the title pointer list.
    pub open spec fn title_entry(self, rank: int) -> Result<nat, ErrorView> {
        crate::pointer_list::title_ptr_at(self.data, self.header.title_ptr_pos as int, rank)
    }

    /// Reading the bytes of namespace and title of the entry at `rank` of the
    /// title pointer list, by which that list is sorted.
    pub open spec fn title_key(self, rank: int) -> Result<Seq<u8>, ErrorView> {
        match self.title_entry(rank) {
            Err(error) => Err(error),
            Ok(idx) => match self.entry_offset(idx as int) {
                Err(error) => Err(error),
                Ok(offset) => match crate::dirent::title_sort_key_at(
                    self.data,
                    crate::util::position_after(offset as int, 0),
                ) {
                    Err(error) => Err(error),
                    Ok((namespace, title)) => Ok(encode_utf8(full_name(namespace, title))),
                },
            },
        }
    }

    /// Reading the entry at `rank` of the title pointer list.
    pub open spec fn title_dirent(self, rank: int) -> Result<Option<DirentView>, ErrorView> {
        match self.title_entry(rank) {
            Err(error) => Err(error),
            Ok(idx) => self.dirent_at(idx as int),
        }
    }

    /// The keys of the path pointer list.
    pub open spec fn path_keys(self) -> spec_fn(int) -> Result<Seq<u8>, ErrorView> {
        |idx: int| self.path_key(idx)
    }

    /// The keys of the title pointer list.
    pub open spec fn title_keys(self) -> spec_fn(int) -> Result<Seq<u8>, ErrorView> {
        |rank: int| self.title_key(rank)
    }

    /// Looking for the entry with this key in the path pointer list.
    pub open spec fn search_path(self, key: Seq<u8>) -> Result<Option<int>, ErrorView> {
        crate::search::bisect(self.path_keys(), key, 0, self.header.entry_count as int)
    }

    /// Looking for a rank with this key in the title pointer list.
    pub open spec fn search_title_rank(self, key: Seq<u8>) -> Result<Option<int>, ErrorView> {
        crate::search::bisect(self.title_keys(), key, 0, self.header.entry_count as int)
    }

    /// Looking for an entry with this key through the title pointer list.
    pub open spec fn search_title(self, key: Seq<u8>) -> Result<Option<int>, ErrorView> {
        match self.search_title_rank(key) {
            Err(error) => Err(error),
            Ok(None) => Ok(None),
            Ok(Some(rank)) => match self.title_entry(rank) {
                Err(error) => Err(error),
                Ok(idx) => Ok(Some(idx as int)),
            },
        }
    }

    /// The entries from `rank` of the title pointer list on whose keys start
    /// with `prefix`, up to the first that does not; deprecated ones are left
    /// out, and no more than `limit` are taken.
    pub open spec fn prefix_run(self, prefix: Seq<u8>, rank: int, limit: nat) -> Result<
        Seq<DirentView>,
        ErrorView,
    >
        decreases self.header.entry_count - rank,
    {
        if limit == 0 || rank >= self.header.entry_count {
            Ok(Seq::empty())
        } else {
            match self.title_key(rank) {
                Err(error) => Err(error),
                Ok(key) => if !prefix.is_prefix_of(key) {
                    Ok(Seq::empty())
                } else {
                    match self.title_dirent(rank) {
                        Err(error) => Err(error),
                        Ok(None) => self.prefix_run(prefix, rank + 1, limit),
                        Ok(Some(entry)) => match self.prefix_run(
                            prefix,
                            rank + 1,
                            (limit - 1) as nat,
                        ) {
                            Err(error) => Err(error),
                            Ok(rest) => Ok(seq![entry] + rest),
                        },
                    }
                },
            }
        }
    }

    /// Looking for the entries whose namespace and title start with `prefix`.
    pub open spec fn search_title_prefix(self, prefix: Seq<u8>, limit: nat) -> Result<
        Seq<DirentView>,
        ErrorView,
    > {
        match crate::search::lower_bound(
            self.title_keys(),
            prefix,
            0,
            self.header.entry_count as int,
        ) {
            Err(error) => Err(error),
            Ok(rank) => self.prefix_run(prefix, rank, limit),
        }
    }

    /// Looking for the entry of this path in a namespace. A namespace is an
    /// ASCII character; no entry is in another. Nothing is found where the
    /// entry is deprecated.
    pub open spec fn find_in(self, namespace: char, path: Seq<char>) -> Result<
        Option<DirentView>,
        ErrorView,
    > {
        if namespace as u32 >= 0x80 {
            Ok(None)
        } else {
            match self.search_path(encode_utf8(full_name(namespace, path))) {
                Err(error) => Err(error),
                Ok(None) => Ok(None),
                Ok(Some(idx)) => self.dirent_at(idx),
            }
        }
    }

    /// Looking for the entry of a path in one namespace and, if nothing is
    /// there, in another.
    pub open spec fn find_in_either(self, first: (char, Seq<char>), second: (char, Seq<char>))
        -> Result<Option<DirentView>, ErrorView> {
        match self.find_in(first.0, first.1) {
            Err(error) => Err(error),
            Ok(Some(entry)) => Ok(Some(entry)),
            Ok(None) => self.find_in(second.0, second.1),
        }
    }

    /// Looking for the entry of a path. Without a namespace, the path may
    /// start with one and a slash. Where it does, Legacy archives are searched
    /// for that first, New archives for the whole path among the articles.
    pub open spec fn find_by_path(self, namespace: Option<char>, path: Seq<char>) -> Result<
        Option<DirentView>,
        ErrorView,
    > {
        let articles = crate::namespace::article_namespace_of(self.namespace_mode);
        match namespace {
            Some(namespace) => self.find_in(namespace, path),
            None => match split_namespace(path) {
                None => self.find_in(articles, path),
                Some(parts) => match self.namespace_mode {
                    NamespaceMode::Legacy => self.find_in_either(parts, (articles, path)),
                    NamespaceMode::New => self.find_in_either((articles, path), parts),
                },
            },
        }
    }

    /// Looking for the first entry whose title starts with `title`, among the
    /// articles if no namespace is given.
    pub open spec fn find_by_title(self, namespace: Option<char>, title: Seq<char>) -> Result<
        Option<DirentView>,
        ErrorView,
    > {
        let namespace = match namespace {
            Some(namespace) => namespace,
            None => crate::namespace::article_namespace_of(self.namespace_mode),
        };
        if namespace as u32 >= 0x80 {
            Ok(None)
        } else {
            match self.search_title_prefix(encode_utf8(full_name(namespace, title)), 1) {
                Err(error) => Err(error),
                Ok(hits) => if hits.len() == 0 {
                    Ok(None)
                } else {
                    Ok(Some(hits[0]))
                },
            }
        }
    }
}

/// The bytes of a string that starts with an ASCII character are that
/// character and the bytes of the rest.
pub proof fn lemma_ascii_first(c: char, text: Seq<char>)
    requires
        (c as u32) < 0x80,
    ensures
        encode_utf8(full_name(c, text)) == seq![c as u8] + encode_utf8(text),
{
    let name = full_name(c, text);
    let scalar = c as u32;
    assert(name.drop_first() =~= text);
    assert((scalar & 0x7F) as u8 == scalar as u8 && scalar & 0x7F == scalar) by (bit_vector)
        requires
            scalar < 0x80,
    ;
    assert(encode_scalar(scalar) =~= seq![c as u8]);
}

/// Every character has a value of 32 bits.
proof fn lemma_char_value(c: char)
    ensures
        c as u32 as int == c as int,
{
}

/// A string whose bytes start with an ASCII byte starts with that character,
/// and the other bytes are those of the rest.
proof fn lemma_ascii_first_byte(text: Seq<char>)
    requires
        encode_utf8(text).len() > 0,
        encode_utf8(text)[0] < 0x80,
    ensures
        text.len() > 0,
        text[0] == encode_utf8(text)[0] as char,
        encode_utf8(text.skip(1)) == encode_utf8(text).skip(1),
{
    let scalar = text[0] as u32;
    let byte = encode_utf8(text)[0];
    char_is_scalar(text[0]);
    lemma_char_value(text[0]);
    assert(byte == encode_scalar(scalar)[0]);
    if scalar >= 0x80 {
        let b2 = ((scalar >> 6) & 0x1F) as u8;
        let b3 = ((scalar >> 12) & 0x0F) as u8;
        let b4 = ((scalar >> 18) & 0x7) as u8;
        assert(0xC0u8 | b2 >= 0x80 && 0xE0u8 | b3 >= 0x80 && 0xF0u8 | b4 >= 0x80) by (bit_vector);
        assert(byte >= 0x80);
    }
    assert(scalar < 0x80);
    assert(text =~= full_name(text[0], text.skip(1)));
    lemma_ascii_first(text[0], text.skip(1));
    assert(encode_utf8(text).skip(1) =~= encode_utf8(text.skip(1)));
}

/// A path starts with a namespace and a slash exactly if its bytes do, and the
/// other bytes are those of the rest.
proof fn lemma_split_bytes(path: Seq<char>)
    ensures
        ({
            let bytes = encode_utf8(path);
            match split_namespace(path) {
                Some((namespace, rest)) => {
                    &&& bytes.len() >= 2
                    &&& bytes[0] == namespace as u8
                    &&& 0x21 <= bytes[0] <= 0x7E
                    &&& bytes[1] == 0x2F
                    &&& bytes.skip(2) == encode_utf8(rest)
                },
                None => !(bytes.len() >= 2 && 0x21 <= bytes[0] <= 0x7E && bytes[1] == 0x2F),
            }
        }),
{
    let bytes = encode_utf8(path);
    if let Some((namespace, rest)) = split_namespace(path) {
        let tail = full_name('/', rest);
        assert(path =~= full_name(namespace, tail));
        lemma_ascii_first('/', rest);
        lemma_ascii_first(namespace, tail);
        assert(bytes == seq![namespace as u8] + (seq!['/' as u8] + encode_utf8(rest)));
        assert(bytes.skip(2) =~= encode_utf8(rest));
    } else if bytes.len() >= 2 && 0x21 <= bytes[0] <= 0x7E && bytes[1] == 0x2F {
        lemma_ascii_first_byte(path);
        let tail = path.skip(1);
        assert(encode_utf8(tail) == bytes.skip(1));
        assert(encode_utf8(tail)[0] == bytes[1]);
        lemma_ascii_first_byte(tail);
        assert(tail[0] == path[1]);
        assert(false);
    }
}

/// The outcome of a search that has found `hits`, given that of its rest.
spec fn after_hits(
    hits: Seq<DirentView>,
    rest: Result<Seq<DirentView>, ErrorView>,
) -> Result<Seq<DirentView>, ErrorView> {
    match rest {
        Err(error) => Err(error),
        Ok(more) => Ok(hits + more),
    }
}

/// Before the first hit, the rest of a search is the whole of it.
proof fn lemma_after_none(hits: Seq<DirentView>, rest: Result<Seq<DirentView>, ErrorView>)
    requires
        hits.len() == 0,
    ensures
        after_hits(hits, rest) == rest,
{
    if let Ok(more) = rest {
        assert(hits + more =~= more);
    }
}

/// A hit can be counted to what was found or to the rest.
proof fn lemma_after_hit(
    hits: Seq<DirentView>,
    hit: DirentView,
    rest: Result<Seq<DirentView>, ErrorView>,
)
    ensures
        after_hits(hits.push(hit), rest) == after_hits(hits, after_hits(seq![hit], rest)),
{
    if let Ok(more) = rest {
        assert(hits + (seq![hit] + more) =~= hits.push(hit) + more);
    }
}

/// A prefix search takes no more entries than it may.
proof fn lemma_prefix_run_len(archive: ArchiveView, prefix: Seq<u8>, rank: int, limit: nat)
    ensures
        archive.prefix_run(prefix, rank, limit) matches Ok(hits) ==> hits.len() <= limit,
    decreases archive.header.entry_count - rank,
{
    if limit > 0 && rank < archive.header.entry_count {
        lemma_prefix_run_len(archive, prefix, rank + 1, limit);
        lemma_prefix_run_len(archive, prefix, rank + 1, (limit - 1) as nat);
    }
}

/// The bytes of a full name, from its namespace byte and the bytes of the rest.
fn full_name_bytes(namespace: u8, text: &[u8]) -> (bytes: Vec<u8>)
    ensures
        bytes@ == seq![namespace] + text@,
{
    let mut bytes: Vec<u8> = Vec::new();
    bytes.push(namespace);
    bytes.extend_from_slice(text);
    assert(bytes@ =~= seq![namespace] + text@);
    bytes
}

impl<'a> Archive<'a> {
    /// Reads where directory entry `idx` starts.
    fn entry_offset(&self, idx: u32) -> (res: Result<u64, Error>)
        ensures
            match res {
                Ok(offset) => self@.entry_offset(idx as int) == Ok::<nat, ErrorView>(
                    offset as nat,
                ),
                Err(error) => self@.entry_offset(idx as int) == Err::<nat, ErrorView>(error@),
            },
    {
        if idx >= self.entry_count() {
            return Err(Error::OffsetOutOfBounds { offset: idx as u64, field: "entry_index" });
        }
        path_ptr(self.data(), self.header().path_ptr_pos, idx)
    }

    /// Reads directory entry `idx`, by its index in the path pointer list.
    /// Returns `Ok(None)` for a deprecated entry.
    pub fn dirent_at(&self, idx: u32) -> (res: Result<Option<Dirent>, Error>)
        ensures
            outcome(res) == self@.dirent_at(idx as int),
    {
        let offset: u64 = match self.entry_offset(idx) {
            Ok(offset) => offset,
            Err(error) => {
                return Err(error);
            },
        };
        Dirent::parse_at(self.data(), offset, self.mime_types().len())
    }

    /// Reads the bytes of namespace and path of directory entry `idx`.
    fn path_key(&self, idx: u32) -> (res: Result<Vec<u8>, Error>)
        ensures
            match res {
                Ok(key) => self@.path_key(idx as int) == Ok::<Seq<u8>, ErrorView>(key@),
                Err(error) => self@.path_key(idx as int) == Err::<Seq<u8>, ErrorView>(error@),
            },
    {
        let offset: u64 = match self.entry_offset(idx) {
            Ok(offset) => offset,
            Err(error) => {
                return Err(error);
            },
        };
        match read_path_sort_key(self.data(), offset) {
            Ok((namespace, path)) => {
                proof {
                    lemma_ascii_first(namespace, path@);
                }
                Ok(full_name_bytes(namespace as u8, path.as_str().as_bytes()))
            },
            Err(error) => Err(error),
        }
    }

    /// Reads the bytes of namespace and title of the entry at `rank` of the
    /// title pointer list.
    fn title_key(&self, rank: u32) -> (res: Result<Vec<u8>, Error>)
        ensures
            match res {
                Ok(key) => self@.title_key(rank as int) == Ok::<Seq<u8>, ErrorView>(key@),
                Err(error) => self@.title_key(rank as int) == Err::<Seq<u8>, ErrorView>(error@),
            },
    {
        let idx: u32 = match title_ptr(self.data(), self.header().title_ptr_pos, rank) {
            Ok(idx) => idx,
            Err(error) => {
                return Err(error);
            },
        };
        let offset: u64 = match self.entry_offset(idx) {
            Ok(offset) => offset,
            Err(error) => {
                return Err(error);
            },
        };
        match read_title_sort_key(self.data(), offset) {
            Ok((namespace, title)) => {
                proof {
                    lemma_ascii_first(namespace, title@);
                }
                Ok(full_name_bytes(namespace as u8, title.as_str().as_bytes()))
            },
            Err(error) => Err(error),
        }
    }

    /// Looks for the entry with this key in the path pointer list.
    fn search_path_key(&self, key: &[u8]) -> (res: Result<Option<u32>, Error>)
        ensures
            index_outcome(res) == self@.search_path(key@),
    {
        let mut lo: u32 = 0;
        let mut hi: u32 = self.entry_count();
        while lo < hi
            invariant
                crate::search::bisect(self@.path_keys(), key@, lo as int, hi as int)
                    == self@.search_path(key@),
            decreases hi - lo,
        {
            let mid: u32 = lo + (hi - lo) / 2;
            let candidate: Vec<u8> = match self.path_key(mid) {
                Ok(candidate) => candidate,
                Err(error) => {
                    return Err(error);
                },
            };
            proof {
                crate::order::order_is_total(candidate@, key@);
            }
            match compare(candidate.as_slice(), key) {
                Order::Same => {
                    return Ok(Some(mid));
                },
                Order::Before => {
                    lo = mid + 1;
                },
                Order::After => {
                    hi = mid;
                },
            }
        }
        Ok(None)
    }

    /// Binary search for an entry by full path (namespace and path, as in
    /// `CMain_Page`). Returns its index in the path pointer list, or `None`.
    pub fn search_path(&self, full_path: &str) -> (res: Result<Option<u32>, Error>)
        ensures
            index_outcome(res) == self@.search_path(encode_utf8(full_path@)),
    {
        self.search_path_key(full_path.as_bytes())
    }

    /// Binary search for an entry by full title (namespace and title). Returns
    /// its index in the path pointer list, or `None`.
    pub fn search_title(&self, full_title: &str) -> (res: Result<Option<u32>, Error>)
        ensures
            index_outcome(res) == self@.search_title(encode_utf8(full_title@)),
    {
        let key: &[u8] = full_title.as_bytes();
        let mut lo: u32 = 0;
        let mut hi: u32 = self.entry_count();
        while lo < hi
            invariant
                key@ == encode_utf8(full_title@),
                crate::search::bisect(self@.title_keys(), key@, lo as int, hi as int)
                    == self@.search_title_rank(key@),
            decreases hi - lo,
        {
            let mid: u32 = lo + (hi - lo) / 2;
            let candidate: Vec<u8> = match self.title_key(mid) {
                Ok(candidate) => candidate,
                Err(error) => {
                    return Err(error);
                },
            };
            proof {
                crate::order::order_is_total(candidate@, key@);
            }
            match compare(candidate.as_slice(), key) {
                Order::Same => {
                    return match title_ptr(self.data(), self.header().title_ptr_pos, mid) {
                        Ok(idx) => Ok(Some(idx)),
                        Err(error) => Err(error),
                    };
                },
                Order::Before => {
                    lo = mid + 1;
                },
                Order::After => {
                    hi = mid;
                },
            }
        }
        Ok(None)
    }

    /// Looks for the first rank of the title pointer list whose key does not
    /// come before `prefix`.
    fn title_lower_bound(&self, prefix: &[u8]) -> (res: Result<u32, Error>)
        ensures
            match res {
                Ok(rank) => crate::search::lower_bound(
                    self@.title_keys(),
                    prefix@,
                    0,
                    self@.header.entry_count as int,
                ) == Ok::<int, ErrorView>(rank as int),
                Err(error) => crate::search::lower_bound(
                    self@.title_keys(),
                    prefix@,
                    0,
                    self@.header.entry_count as int,
                ) == Err::<int, ErrorView>(error@),
            },
    {
        let mut lo: u32 = 0;
        let mut hi: u32 = self.entry_count();
        while lo < hi
            invariant
                crate::search::lower_bound(self@.title_keys(), prefix@, lo as int, hi as int)
                    == crate::search::lower_bound(
                    self@.title_keys(),
                    prefix@,
                    0,
                    self@.header.entry_count as int,
                ),
            decreases hi - lo,
        {
            let mid: u32 = lo + (hi - lo) / 2;
            let candidate: Vec<u8> = match self.title_key(mid) {
                Ok(candidate) => candidate,
                Err(error) => {
                    return Err(error);
                },
            };
            proof {
                crate::order::order_is_total(candidate@, prefix@);
            }
            match compare(candidate.as_slice(), prefix) {
                Order::Before => {
                    lo = mid + 1;
                },
                _ => {
                    hi = mid;
                },
            }
        }
        Ok(lo)
    }

    /// Collects the entries whose namespace and title start with `prefix`.
    #[verifier::spinoff_prover]
    fn search_title_prefix_key(&self, prefix: &[u8], limit: usize) -> (res: Result<
        Vec<Dirent>,
        Error,
    >)
        ensures
            outcome(res) == self@.search_title_prefix(prefix@, limit as nat),
    {
        let start: u32 = match self.title_lower_bound(prefix) {
            Ok(rank) => rank,
            Err(error) => {
                return Err(error);
            },
        };
        let count: u32 = self.entry_count();
        let mut rank: u32 = start;
        let mut hits: Vec<Dirent> = Vec::new();
        let ghost whole = self@.prefix_run(prefix@, start as int, limit as nat);
        proof {
            lemma_after_none(hits.deep_view(), whole);
        }
        while rank < count && hits.len() < limit
            invariant
                count == self@.header.entry_count,
                hits@.len() <= limit,
                whole == after_hits(
                    hits.deep_view(),
                    self@.prefix_run(prefix@, rank as int, (limit - hits@.len()) as nat),
                ),
                whole == self@.search_title_prefix(prefix@, limit as nat),
            decreases count - rank,
        {
            let key: Vec<u8> = match self.title_key(rank) {
                Ok(key) => key,
                Err(error) => {
                    return Err(error);
                },
            };
            if !starts_with(key.as_slice(), prefix) {
                assert(whole == Ok::<Seq<DirentView>, ErrorView>(hits.deep_view()));
                return Ok(hits);
            }
            let idx: u32 = match title_ptr(self.data(), self.header().title_ptr_pos, rank) {
                Ok(idx) => idx,
                Err(error) => {
                    return Err(error);
                },
            };
            match self.dirent_at(idx) {
                Ok(Some(entry)) => {
                    let ghost before = hits.deep_view();
                    hits.push(entry);
                    proof {
                        assert(hits.deep_view() =~= before.push(entry@));
                        lemma_after_hit(
                            before,
                            entry@,
                            self@.prefix_run(prefix@, rank + 1, (limit - hits@.len()) as nat),
                        );
                    }
                },
                Ok(None) => {},
                Err(error) => {
                    return Err(error);
                },
            }
            rank = rank + 1;
        }
        assert(whole == Ok::<Seq<DirentView>, ErrorView>(hits.deep_view()));
        Ok(hits)
    }

    /// Prefix search over full titles (namespace and title). Returns up to
    /// `limit` entries in title order; deprecated ones are skipped.
    pub fn search_title_prefix(&self, prefix: &str, limit: usize) -> (res: Result<
        Vec<Dirent>,
        Error,
    >)
        ensures
            outcome(res) == self@.search_title_prefix(encode_utf8(prefix@), limit as nat),
    {
        self.search_title_prefix_key(prefix.as_bytes(), limit)
    }

    /// Looks for the entry with this key and reads it.
    fn find_key(&self, key: &[u8]) -> (res: Result<Option<Dirent>, Error>)
        ensures
            outcome(res) == match self@.search_path(key@) {
                Err(error) => Err(error),
                Ok(None) => Ok(None),
                Ok(Some(idx)) => self@.dirent_at(idx),
            },
    {
        match self.search_path_key(key) {
            Ok(Some(idx)) => self.dirent_at(idx),
            Ok(None) => Ok(None),
            Err(error) => Err(error),
        }
    }

    /// Looks for the entry of this path in a namespace.
    fn find_in(&self, namespace: char, path: &str) -> (res: Result<Option<Dirent>, Error>)
        ensures
            outcome(res) == self@.find_in(namespace, path@),
    {
        if namespace as u32 >= 0x80 {
            return Ok(None);
        }
        proof {
            lemma_ascii_first(namespace, path@);
        }
        let key: Vec<u8> = full_name_bytes(namespace as u8, path.as_bytes());
        self.find_key(key.as_slice())
    }

    /// Looks up an entry by path.
    ///
    /// With a namespace, the path is looked for there. Without one, the path
    /// may start with a namespace and a slash, as in `A/Main_Page`; otherwise
    /// it is looked for in the article namespace. Where both readings are
    /// possible, Legacy archives prefer the first and New archives the second,
    /// and the other is tried if nothing was found.
    pub fn find_by_path(&self, namespace: Option<char>, path: &str) -> (res: Result<
        Option<Dirent>,
        Error,
    >)
        ensures
            outcome(res) == self@.find_by_path(namespace, path@),
    {
        if let Some(namespace) = namespace {
            return self.find_in(namespace, path);
        }
        let mode: NamespaceMode = self.namespace_mode();
        let articles: char = article_namespace(mode);
        let bytes: &[u8] = path.as_bytes();
        proof {
            lemma_split_bytes(path@);
        }
        if !(bytes.len() >= 2 && bytes[0] >= 0x21 && bytes[0] <= 0x7E && bytes[1] == 0x2F) {
            return self.find_in(articles, path);
        }
        let ghost parts = split_namespace(path@)->Some_0;
        proof {
            lemma_ascii_first(parts.0, parts.1);
            assert(bytes@.subrange(2, bytes@.len() as int) =~= bytes@.skip(2));
        }
        let key: Vec<u8> = full_name_bytes(bytes[0], &bytes[2..bytes.len()]);
        match mode {
            NamespaceMode::Legacy => match self.find_key(key.as_slice()) {
                Ok(None) => self.find_in(articles, path),
                found => found,
            },
            NamespaceMode::New => match self.find_in(articles, path) {
                Ok(None) => self.find_key(key.as_slice()),
                found => found,
            },
        }
    }

    /// Looks up an entry by title: the first entry in title order whose title
    /// starts with `title`, in the article namespace if none is given.
    pub fn find_by_title(&self, namespace: Option<char>, title: &str) -> (res: Result<
        Option<Dirent>,
        Error,
    >)
        ensures
            outcome(res) == self@.find_by_title(namespace, title@),
    {
        let namespace: char = match namespace {
            Some(namespace) => namespace,
            None => article_namespace(self.namespace_mode()),
        };
        if namespace as u32 >= 0x80 {
            return Ok(None);
        }
        proof {
            lemma_ascii_first(namespace, title@);
        }
        let key: Vec<u8> = full_name_bytes(namespace as u8, title.as_bytes());
        match self.search_title_prefix_key(key.as_slice(), 1) {
            Ok(hits) => {
                let mut hits: Vec<Dirent> = hits;
                proof {
                    if let Ok(rank) = crate::search::lower_bound(
                        self@.title_keys(),
                        key@,
                        0,
                        self@.header.entry_count as int,
                    ) {
                        lemma_prefix_run_len(self@, key@, rank, 1);
                    }
                    assert(hits@.len() == hits.deep_view().len());
                }
                Ok(hits.pop())
            },
            Err(error) => Err(error),
        }
    }
}

impl ArchiveView {
    /// Whether the path pointer list is sorted, as the format demands.
    pub open spec fn paths_are_sorted(self) -> bool {
        crate::search::is_sorted(self.path_keys(), self.header.entry_count as int)
    }

    /// Whether no two entries have the same namespace and path.
    pub open spec fn paths_are_distinct(self) -> bool {
        forall|i: int, j: int|
            0 <= i < j < self.header.entry_count ==> #[trigger] self.path_key(i)
                != #[trigger] self.path_key(j)
    }

    /// Whether the title pointer list is sorted, as the format demands.
    pub open spec fn titles_are_sorted(self) -> bool {
        crate::search::is_sorted(self.title_keys(), self.header.entry_count as int)
    }

    /// The live entries from `rank` of the title pointer list on whose keys
    /// start with `prefix`, wherever they stand.
    pub open spec fn matching_titles(self, prefix: Seq<u8>, rank: int) -> Seq<DirentView>
        decreases self.header.entry_count - rank,
    {
        if rank >= self.header.entry_count {
            Seq::empty()
        } else {
            let rest = self.matching_titles(prefix, rank + 1);
            match (self.title_key(rank), self.title_dirent(rank)) {
                (Ok(key), Ok(Some(entry))) => if prefix.is_prefix_of(key) {
                    seq![entry] + rest
                } else {
                    rest
                },
                _ => rest,
            }
        }
    }
}

/// Where the path pointer list is sorted, a search gives the index of an entry
/// with the path that was looked for, or says rightly that there is none.
pub proof fn path_search_is_exact(archive: ArchiveView, key: Seq<u8>)
    requires
        archive.paths_are_sorted(),
    ensures
        match archive.search_path(key) {
            Ok(Some(idx)) => 0 <= idx < archive.header.entry_count && archive.path_key(idx) == Ok::<
                Seq<u8>,
                ErrorView,
            >(key),
            Ok(None) => forall|idx: int|
                0 <= idx < archive.header.entry_count ==> #[trigger] archive.path_key(idx) != Ok::<
                    Seq<u8>,
                    ErrorView,
                >(key),
            Err(_) => false,
        },
{
    let n = archive.header.entry_count as int;
    crate::search::bisect_is_complete(archive.path_keys(), key, n);
    if archive.search_path(key) == Ok::<Option<int>, ErrorView>(None) {
        assert forall|idx: int| 0 <= idx < n implies #[trigger] archive.path_key(idx) != Ok::<
            Seq<u8>,
            ErrorView,
        >(key) by {
            assert((archive.path_keys())(idx) == archive.path_key(idx));
        }
    }
}

/// Where the title pointer list is sorted, a search gives the index of an
/// entry with the title that was looked for, or says rightly that there is
/// none.
pub proof fn title_search_is_exact(archive: ArchiveView, key: Seq<u8>)
    requires
        archive.titles_are_sorted(),
    ensures
        match archive.search_title(key) {
            Ok(Some(idx)) => exists|rank: int|
                0 <= rank < archive.header.entry_count && #[trigger] archive.title_key(rank)
                    == Ok::<Seq<u8>, ErrorView>(key) && archive.title_entry(rank) == Ok::<
                    nat,
                    ErrorView,
                >(idx as nat),
            Ok(None) => forall|rank: int|
                0 <= rank < archive.header.entry_count ==> #[trigger] archive.title_key(rank)
                    != Ok::<Seq<u8>, ErrorView>(key),
            Err(_) => false,
        },
{
    let n = archive.header.entry_count as int;
    crate::search::bisect_is_complete(archive.title_keys(), key, n);
    match archive.search_title_rank(key) {
        Ok(Some(rank)) => {
            assert(archive.title_key(rank) == Ok::<Seq<u8>, ErrorView>(key));
        },
        Ok(None) => {
            assert forall|rank: int| 0 <= rank < n implies #[trigger] archive.title_key(rank)
                != Ok::<Seq<u8>, ErrorView>(key) by {
                assert((archive.title_keys())(rank) == archive.title_key(rank));
            }
        },
        Err(_) => {},
    }
}

/// The key of an entry that can be read is its namespace and path, and the
/// namespace is ASCII.
proof fn lemma_entry_key(archive: ArchiveView, idx: int, entry: DirentView)
    requires
        archive.valid(),
        archive.dirent_at(idx) == Ok::<Option<DirentView>, ErrorView>(Some(entry)),
    ensures
        archive.path_key(idx) == Ok::<Seq<u8>, ErrorView>(
            encode_utf8(full_name(entry.namespace(), entry.path())),
        ),
        (entry.namespace() as u32) < 0x80,
        crate::dirent::is_namespace(entry.namespace()),
{
    if let Ok(offset) = archive.entry_offset(idx) {
        let base = crate::util::position_after(offset as int, 0);
        crate::dirent::sort_keys_agree_with_entry(archive.data, base, archive.mime_types.len());
    }
}

/// Every entry that can be read is found by its namespace and path, where the
/// path pointer list is sorted and has no path twice.
pub proof fn entry_is_found_by_path(archive: ArchiveView, idx: int, entry: DirentView)
    requires
        archive.valid(),
        archive.paths_are_sorted(),
        archive.paths_are_distinct(),
        0 <= idx,
        archive.dirent_at(idx) == Ok::<Option<DirentView>, ErrorView>(Some(entry)),
    ensures
        archive.find_by_path(Some(entry.namespace()), entry.path()) == Ok::<
            Option<DirentView>,
            ErrorView,
        >(Some(entry)),
{
    let key = encode_utf8(full_name(entry.namespace(), entry.path()));
    lemma_entry_key(archive, idx, entry);
    path_search_is_exact(archive, key);
}

/// In a New archive, every entry of the article namespace is found by its path
/// alone.
pub proof fn article_is_found_by_path_alone(archive: ArchiveView, idx: int, entry: DirentView)
    requires
        archive.valid(),
        archive.namespace_mode == NamespaceMode::New,
        archive.paths_are_sorted(),
        archive.paths_are_distinct(),
        0 <= idx,
        archive.dirent_at(idx) == Ok::<Option<DirentView>, ErrorView>(Some(entry)),
        entry.namespace() == crate::namespace::article_namespace_of(archive.namespace_mode),
    ensures
        archive.find_by_path(None, entry.path()) == Ok::<Option<DirentView>, ErrorView>(
            Some(entry),
        ),
{
    entry_is_found_by_path(archive, idx, entry);
}

/// In a Legacy archive, every entry is found by its namespace, a slash and its
/// path.
pub proof fn entry_is_found_by_prefixed_path(archive: ArchiveView, idx: int, entry: DirentView)
    requires
        archive.valid(),
        archive.namespace_mode == NamespaceMode::Legacy,
        archive.paths_are_sorted(),
        archive.paths_are_distinct(),
        0 <= idx,
        archive.dirent_at(idx) == Ok::<Option<DirentView>, ErrorView>(Some(entry)),
    ensures
        archive.find_by_path(None, seq![entry.namespace(), '/'] + entry.path()) == Ok::<
            Option<DirentView>,
            ErrorView,
        >(Some(entry)),
{
    let path = seq![entry.namespace(), '/'] + entry.path();
    entry_is_found_by_path(archive, idx, entry);
    lemma_entry_key(archive, idx, entry);
    assert(path.skip(2) =~= entry.path());
}

/// A path that no entry of a namespace has is not found there, where the path
/// pointer list is sorted.
pub proof fn absent_path_is_not_found(archive: ArchiveView, namespace: char, path: Seq<char>)
    requires
        archive.paths_are_sorted(),
        forall|idx: int|
            0 <= idx < archive.header.entry_count ==> #[trigger] archive.path_key(idx) != Ok::<
                Seq<u8>,
                ErrorView,
            >(encode_utf8(full_name(namespace, path))),
    ensures
        archive.find_by_path(Some(namespace), path) == Ok::<Option<DirentView>, ErrorView>(None),
{
    path_search_is_exact(archive, encode_utf8(full_name(namespace, path)));
}

/// Two full names are the same exactly if their bytes are.
pub proof fn keys_tell_names_apart(a: Seq<char>, b: Seq<char>)
    ensures
        encode_utf8(a) == encode_utf8(b) <==> a == b,
{
    encode_utf8_decode_utf8(a);
    encode_utf8_decode_utf8(b);
}

/// A run of entries from `rank` on, where all the entries with the prefix
/// stand together, is the first of them.
proof fn lemma_prefix_run(archive: ArchiveView, prefix: Seq<u8>, rank: int, limit: nat)
    requires
        archive.titles_are_sorted(),
        0 <= rank <= archive.header.entry_count,
        forall|i: int|
            rank <= i < archive.header.entry_count ==> (#[trigger] archive.title_dirent(i)) is Ok,
        forall|i: int|
            rank <= i < archive.header.entry_count ==> !crate::order::precedes(
                (#[trigger] archive.title_key(i))->Ok_0,
                prefix,
            ),
    ensures
        ({
            let all = archive.matching_titles(prefix, rank);
            archive.prefix_run(prefix, rank, limit) == Ok::<Seq<DirentView>, ErrorView>(
                all.take(if limit < all.len() {
                    limit as int
                } else {
                    all.len() as int
                }),
            )
        }),
    decreases archive.header.entry_count - rank,
{
    let n = archive.header.entry_count as int;
    let all = archive.matching_titles(prefix, rank);
    if limit == 0 || rank >= n {
        assert(all.take(0) =~= Seq::empty());
    } else {
        let rest = archive.matching_titles(prefix, rank + 1);
        assert((archive.title_keys())(rank) is Ok);
        assert(archive.title_dirent(rank) is Ok);
        let key = archive.title_key(rank)->Ok_0;
        if !prefix.is_prefix_of(key) {
            lemma_no_match_after(archive, prefix, rank);
            assert(all.take(0) =~= Seq::empty());
        } else if let Some(entry) = archive.title_dirent(rank)->Ok_0 {
            lemma_prefix_run(archive, prefix, rank + 1, (limit - 1) as nat);
            let m = if limit - 1 < rest.len() {
                limit - 1
            } else {
                rest.len() as int
            };
            assert(seq![entry] + rest.take(m) =~= all.take(m + 1));
        } else {
            lemma_prefix_run(archive, prefix, rank + 1, limit);
        }
    }
}

/// Behind a key that is not before the prefix and does not start with it, none
/// starts with it.
proof fn lemma_no_match_after(archive: ArchiveView, prefix: Seq<u8>, rank: int)
    requires
        archive.titles_are_sorted(),
        0 <= rank < archive.header.entry_count,
        !crate::order::precedes(archive.title_key(rank)->Ok_0, prefix),
        !prefix.is_prefix_of(archive.title_key(rank)->Ok_0),
    ensures
        archive.matching_titles(prefix, rank).len() == 0,
{
    assert forall|i: int|
        rank <= i < archive.header.entry_count implies !prefix.is_prefix_of(
        (#[trigger] archive.title_key(i))->Ok_0,
    ) by {
        if i > rank {
            let keys = archive.title_keys();
            assert(!crate::order::precedes(keys(i)->Ok_0, keys(rank)->Ok_0));
            crate::order::prefix_run_is_contiguous(
                prefix,
                archive.title_key(rank)->Ok_0,
                archive.title_key(i)->Ok_0,
            );
        }
    }
    lemma_none_matching(archive, prefix, rank);
}

proof fn lemma_none_matching(archive: ArchiveView, prefix: Seq<u8>, rank: int)
    requires
        forall|i: int|
            rank <= i < archive.header.entry_count ==> !prefix.is_prefix_of(
                (#[trigger] archive.title_key(i))->Ok_0,
            ),
    ensures
        archive.matching_titles(prefix, rank).len() == 0,
    decreases archive.header.entry_count - rank,
{
    if rank < archive.header.entry_count {
        assert(!prefix.is_prefix_of(archive.title_key(rank)->Ok_0));
        lemma_none_matching(archive, prefix, rank + 1);
    }
}

/// Keys that come before the prefix do not start with it, so leaving them out
/// loses nothing.
proof fn lemma_skip_before(archive: ArchiveView, prefix: Seq<u8>, rank: int, bound: int)
    requires
        0 <= rank <= bound <= archive.header.entry_count,
        forall|i: int|
            rank <= i < bound ==> crate::order::precedes(
                (#[trigger] archive.title_key(i))->Ok_0,
                prefix,
            ),
    ensures
        archive.matching_titles(prefix, rank) == archive.matching_titles(prefix, bound),
    decreases bound - rank,
{
    if rank < bound {
        let key = archive.title_key(rank)->Ok_0;
        assert(crate::order::precedes(key, prefix));
        if prefix.is_prefix_of(key) {
            crate::order::prefix_is_not_after(prefix, key);
        }
        lemma_skip_before(archive, prefix, rank + 1, bound);
    }
}

/// Where the title pointer list is sorted and its entries can be read, a
/// prefix search gives the live entries whose namespace and title start with
/// the prefix, in title order: all of them, or the first `limit`.
pub proof fn prefix_search_is_exact(archive: ArchiveView, prefix: Seq<u8>, limit: nat)
    requires
        archive.titles_are_sorted(),
        forall|i: int|
            0 <= i < archive.header.entry_count ==> (#[trigger] archive.title_dirent(i)) is Ok,
    ensures
        ({
            let all = archive.matching_titles(prefix, 0);
            archive.search_title_prefix(prefix, limit) == Ok::<Seq<DirentView>, ErrorView>(
                all.take(if limit < all.len() {
                    limit as int
                } else {
                    all.len() as int
                }),
            )
        }),
{
    let n = archive.header.entry_count as int;
    let keys = archive.title_keys();
    crate::search::lower_bound_parts_keys(keys, prefix, n);
    let bound = crate::search::lower_bound(keys, prefix, 0, n)->Ok_0;
    assert forall|i: int| 0 <= i < bound implies crate::order::precedes(
        (#[trigger] archive.title_key(i))->Ok_0,
        prefix,
    ) by {
        assert(crate::order::precedes(keys(i)->Ok_0, prefix));
    }
    assert forall|i: int| bound <= i < n implies !crate::order::precedes(
        (#[trigger] archive.title_key(i))->Ok_0,
        prefix,
    ) by {
        assert(!crate::order::precedes(keys(i)->Ok_0, prefix));
    }
    lemma_skip_before(archive, prefix, 0, bound);
    lemma_prefix_run(archive, prefix, bound, limit);
}

/// Where the title pointer list is sorted and its entries can be read, a lookup
/// by title gives the first live entry whose title starts with it, if any.
pub proof fn title_lookup_gives_first_match(
    archive: ArchiveView,
    namespace: char,
    title: Seq<char>,
)
    requires
        (namespace as u32) < 0x80,
        archive.titles_are_sorted(),
        forall|i: int|
            0 <= i < archive.header.entry_count ==> (#[trigger] archive.title_dirent(i)) is Ok,
    ensures
        ({
            let all = archive.matching_titles(encode_utf8(full_name(namespace, title)), 0);
            archive.find_by_title(Some(namespace), title) == Ok::<Option<DirentView>, ErrorView>(
                if all.len() == 0 {
                    None
                } else {
                    Some(all[0])
                },
            )
        }),
{
    prefix_search_is_exact(archive, encode_utf8(full_name(namespace, title)), 1);
}

/// Even where the path pointer list is not sorted, what a search by path finds
/// has the path that was looked for, and the error that it reports is that of
/// reading some entry.
pub proof fn path_search_is_sound(archive: ArchiveView, key: Seq<u8>)
    ensures
        match archive.search_path(key) {
            Ok(Some(idx)) => 0 <= idx < archive.header.entry_count && archive.path_key(idx) == Ok::<
                Seq<u8>,
                ErrorView,
            >(key),
            Ok(None) => true,
            Err(error) => exists|idx: int|
                0 <= idx < archive.header.entry_count && #[trigger] archive.path_key(idx) == Err::<
                    Seq<u8>,
                    ErrorView,
                >(error),
        },
{
    let keys = archive.path_keys();
    let n = archive.header.entry_count as int;
    crate::search::bisect_is_sound(keys, key, 0, n);
    if let Err(error) = archive.search_path(key) {
        let idx = choose|i: int|
            0 <= i < n && #[trigger] keys(i) == Err::<Seq<u8>, ErrorView>(error);
        assert(archive.path_key(idx) == Err::<Seq<u8>, ErrorView>(error));
    }
}

/// Entry `idx` is read from where pointer `idx` of the path pointer list points
/// to. Beyond the number of entries nothing is read.
pub proof fn entry_is_read_where_its_pointer_points(archive: ArchiveView, idx: int, offset: nat)
    requires
        archive.valid(),
        0 <= idx,
    ensures
        idx >= archive.header.entry_count ==> archive.dirent_at(idx) == Err::<
            Option<DirentView>,
            ErrorView,
        >(ErrorView::OffsetOutOfBounds { offset: idx, field: "entry_index"@ }),
        ({
            let at = archive.header.path_ptr_pos + 8 * idx;
            &&& idx < archive.header.entry_count
            &&& at + 8 <= archive.data.len()
            &&& archive.data.subrange(at, at + 8) == crate::util::le_bytes(offset, 8)
            &&& offset < archive.data.len()
        }) ==> archive.dirent_at(idx) == crate::dirent::dirent_at(
            archive.data,
            offset as int,
            archive.mime_types.len(),
        ),
{
    let at = archive.header.path_ptr_pos + 8 * idx;
    if idx < archive.header.entry_count && at + 8 <= archive.data.len() && archive.data.subrange(
        at,
        at + 8,
    ) == crate::util::le_bytes(offset, 8) && offset < archive.data.len() {
        lemma_entry_offset(archive, idx, offset);
    }
}

/// The offset of an entry is the one whose bytes stand in the path pointer
/// list.
proof fn lemma_entry_offset(archive: ArchiveView, idx: int, offset: nat)
    requires
        archive.valid(),
        0 <= idx < archive.header.entry_count,
        offset < archive.data.len(),
        ({
            let at = archive.header.path_ptr_pos + 8 * idx;
            &&& at + 8 <= archive.data.len()
            &&& archive.data.subrange(at, at + 8) == crate::util::le_bytes(offset, 8)
        }),
    ensures
        archive.entry_offset(idx) == Ok::<nat, ErrorView>(offset),
        crate::util::position_after(offset as int, 0) == offset,
{
    crate::util::le_limits();
    crate::util::le_value_of_le_bytes(offset, 8);
}

/// The rank of a title names the entry whose index stands in the title pointer
/// list.
pub proof fn rank_names_the_entry_of_its_pointer(archive: ArchiveView, rank: int, idx: nat)
    requires
        archive.valid(),
        0 <= rank,
        idx <= u32::MAX,
        ({
            let at = archive.header.title_ptr_pos + 4 * rank;
            &&& at + 4 <= archive.data.len()
            &&& archive.data.subrange(at, at + 4) == crate::util::le_bytes(idx, 4)
        }),
    ensures
        archive.title_entry(rank) == Ok::<nat, ErrorView>(idx),
        archive.title_dirent(rank) == archive.dirent_at(idx as int),
{
    crate::util::le_limits();
    crate::util::le_value_of_le_bytes(idx, 4);
}

/// The key of an entry in the path pointer list is spelled by its namespace and
/// its whole path, for every entry that can be read.
pub proof fn path_key_is_namespace_and_path(archive: ArchiveView, idx: int, entry: DirentView)
    requires
        archive.valid(),
        archive.dirent_at(idx) == Ok::<Option<DirentView>, ErrorView>(Some(entry)),
    ensures
        archive.path_key(idx) == Ok::<Seq<u8>, ErrorView>(
            encode_utf8(seq![entry.namespace()] + entry.path()),
        ),
{
    lemma_entry_key(archive, idx, entry);
}

/// The key of an entry in the title pointer list is spelled by its namespace
/// and its whole title, for every entry that can be read.
pub proof fn title_key_is_namespace_and_title(archive: ArchiveView, rank: int, entry: DirentView)
    requires
        archive.valid(),
        archive.title_dirent(rank) == Ok::<Option<DirentView>, ErrorView>(Some(entry)),
    ensures
        archive.title_key(rank) == Ok::<Seq<u8>, ErrorView>(
            encode_utf8(seq![entry.namespace()] + entry.title()),
        ),
        (entry.namespace() as u32) < 0x80,
{
    let idx = archive.title_entry(rank)->Ok_0;
    lemma_entry_key(archive, idx as int, entry);
    let offset = archive.entry_offset(idx as int)->Ok_0;
    let base = crate::util::position_after(offset as int, 0);
    crate::dirent::sort_keys_agree_with_entry(archive.data, base, archive.mime_types.len());
}

/// The keys of an entry of any kind, deprecated ones among them, are spelled by
/// the namespace, the path and the title that stand where its pointer points
/// to.
pub proof fn keys_are_read_where_the_pointer_points(
    archive: ArchiveView,
    idx: int,
    offset: nat,
    path: Seq<char>,
    stored: Seq<char>,
    title: Seq<char>,
)
    requires
        archive.valid(),
        0 <= idx < archive.header.entry_count,
        ({
            let at = archive.header.path_ptr_pos + 8 * idx;
            &&& at + 8 <= archive.data.len()
            &&& archive.data.subrange(at, at + 8) == crate::util::le_bytes(offset, 8)
        }),
        offset + 4 <= archive.data.len(),
        0x21 <= archive.data[offset as int + 3] <= 0x7E,
        crate::dirent::names_stand_at(
            archive.data,
            offset + if crate::util::le_value(
                archive.data.subrange(offset as int, offset as int + 2),
            ) == 0xFFFF {
                12int
            } else {
                16
            },
            path,
            stored,
            title,
        ),
    ensures
        archive.path_key(idx) == Ok::<Seq<u8>, ErrorView>(
            encode_utf8(seq![archive.data[offset as int + 3] as char] + path),
        ),
        forall|rank: int| #[trigger]
            archive.title_entry(rank) == Ok::<nat, ErrorView>(idx as nat) ==> archive.title_key(
                rank,
            ) == Ok::<Seq<u8>, ErrorView>(
                encode_utf8(seq![archive.data[offset as int + 3] as char] + title),
            ),
{
    lemma_entry_offset(archive, idx, offset);
    crate::dirent::sort_keys_stand_at_their_offsets(
        archive.data,
        offset as int,
        path,
        stored,
        title,
    );
}

/// Where the path pointer list is sorted and has no path twice, looking for the
/// key of an entry gives its index, and looking for its path in its namespace
/// gives what reading it gives: nothing, if it is deprecated.
pub proof fn key_leads_to_its_entry(
    archive: ArchiveView,
    idx: int,
    namespace: char,
    path: Seq<char>,
)
    requires
        archive.paths_are_sorted(),
        archive.paths_are_distinct(),
        0 <= idx < archive.header.entry_count,
        (namespace as u32) < 0x80,
        archive.path_key(idx) == Ok::<Seq<u8>, ErrorView>(encode_utf8(seq![namespace] + path)),
    ensures
        archive.search_path(encode_utf8(seq![namespace] + path)) == Ok::<Option<int>, ErrorView>(
            Some(idx),
        ),
        archive.find_by_path(Some(namespace), path) == archive.dirent_at(idx),
{
    path_search_is_exact(archive, encode_utf8(seq![namespace] + path));
}

/// What is found in a namespace is an entry of the archive with that namespace
/// and the path that was looked for, even where the path pointer list is not
/// sorted.
pub proof fn found_entry_has_namespace_and_path(
    archive: ArchiveView,
    namespace: char,
    path: Seq<char>,
    entry: DirentView,
)
    requires
        archive.valid(),
        archive.find_by_path(Some(namespace), path) == Ok::<Option<DirentView>, ErrorView>(
            Some(entry),
        ),
    ensures
        entry.namespace() == namespace,
        entry.path() == path,
        exists|idx: int|
            0 <= idx < archive.header.entry_count && #[trigger] archive.dirent_at(idx) == Ok::<
                Option<DirentView>,
                ErrorView,
            >(Some(entry)),
{
    let wanted = seq![namespace] + path;
    path_search_is_sound(archive, encode_utf8(wanted));
    let idx = archive.search_path(encode_utf8(wanted))->Ok_0->Some_0;
    path_key_is_namespace_and_path(archive, idx, entry);
    let found = seq![entry.namespace()] + entry.path();
    keys_tell_names_apart(wanted, found);
    assert(wanted[0] == found[0]);
    assert(wanted.skip(1) =~= path);
    assert(found.skip(1) =~= entry.path());
}

/// What is found without a namespace is an article with the path that was
/// looked for, or an entry whose namespace, a slash and its path are what was
/// looked for: nothing else is ever given for a path.
pub proof fn found_entry_is_an_article_or_in_the_namespace_of_the_path(
    archive: ArchiveView,
    path: Seq<char>,
    entry: DirentView,
)
    requires
        archive.valid(),
        archive.find_by_path(None, path) == Ok::<Option<DirentView>, ErrorView>(Some(entry)),
    ensures
        ({
            let articles = if archive.namespace_mode == NamespaceMode::New {
                'C'
            } else {
                'A'
            };
            ||| entry.namespace() == articles && entry.path() == path
            ||| path == seq![entry.namespace(), '/'] + entry.path()
        }),
        exists|idx: int|
            0 <= idx < archive.header.entry_count && #[trigger] archive.dirent_at(idx) == Ok::<
                Option<DirentView>,
                ErrorView,
            >(Some(entry)),
{
    let articles = if archive.namespace_mode == NamespaceMode::New {
        'C'
    } else {
        'A'
    };
    if archive.find_by_path(Some(articles), path) == Ok::<Option<DirentView>, ErrorView>(
        Some(entry),
    ) {
        found_entry_has_namespace_and_path(archive, articles, path, entry);
    }
    if path.len() >= 2 && archive.find_by_path(Some(path[0]), path.skip(2)) == Ok::<
        Option<DirentView>,
        ErrorView,
    >(Some(entry)) {
        found_entry_has_namespace_and_path(archive, path[0], path.skip(2), entry);
        if path[1] == '/' {
            assert(path =~= seq![entry.namespace(), '/'] + entry.path());
        }
    }
}

/// Without a namespace, a path that does not start with one and a slash is
/// looked for among the articles, and nowhere else.
pub proof fn plain_path_is_looked_for_among_the_articles(archive: ArchiveView, path: Seq<char>)
    requires
        path.len() < 2 || path[1] != '/' || path[0] < '!' || path[0] > '~',
    ensures
        archive.namespace_mode == NamespaceMode::New ==> archive.find_by_path(None, path)
            == archive.find_by_path(Some('C'), path),
        archive.namespace_mode == NamespaceMode::Legacy ==> archive.find_by_path(None, path)
            == archive.find_by_path(Some('A'), path),
{
}

/// Without a namespace, a path that starts with one and a slash is looked for
/// as a whole among the articles, and behind the slash in that namespace. In a
/// New archive the first counts, in a Legacy archive the second, unless it
/// finds nothing: then the other does.
pub proof fn prefixed_path_is_looked_for_in_two_ways(
    archive: ArchiveView,
    namespace: char,
    rest: Seq<char>,
)
    requires
        '!' <= namespace <= '~',
    ensures
        ({
            let path = seq![namespace, '/'] + rest;
            let nothing = Ok::<Option<DirentView>, ErrorView>(None);
            let behind = archive.find_by_path(Some(namespace), rest);
            &&& archive.namespace_mode == NamespaceMode::New ==> {
                let whole = archive.find_by_path(Some('C'), path);
                &&& whole != nothing ==> archive.find_by_path(None, path) == whole
                &&& whole == nothing ==> archive.find_by_path(None, path) == behind
            }
            &&& archive.namespace_mode == NamespaceMode::Legacy ==> {
                let whole = archive.find_by_path(Some('A'), path);
                &&& behind != nothing ==> archive.find_by_path(None, path) == behind
                &&& behind == nothing ==> archive.find_by_path(None, path) == whole
            }
        }),
{
    let path = seq![namespace, '/'] + rest;
    assert(path.skip(2) =~= rest);
}

/// A path that no entry has is not found, where the path pointer list is
/// sorted: in a namespace if none of its entries has it, and without one if no
/// article has it and it does not start with a namespace and a slash.
pub proof fn path_that_no_entry_has_is_not_found(
    archive: ArchiveView,
    namespace: char,
    path: Seq<char>,
)
    requires
        archive.paths_are_sorted(),
        forall|idx: int|
            0 <= idx < archive.header.entry_count ==> #[trigger] archive.path_key(idx) != Ok::<
                Seq<u8>,
                ErrorView,
            >(encode_utf8(seq![namespace] + path)),
    ensures
        archive.find_by_path(Some(namespace), path) == Ok::<Option<DirentView>, ErrorView>(None),
        ({
            &&& path.len() < 2 || path[1] != '/' || path[0] < '!' || path[0] > '~'
            &&& namespace == if archive.namespace_mode == NamespaceMode::New {
                'C'
            } else {
                'A'
            }
        }) ==> archive.find_by_path(None, path) == Ok::<Option<DirentView>, ErrorView>(None),
{
    path_search_is_exact(archive, encode_utf8(seq![namespace] + path));
}

/// No entry is found in a namespace that is not ASCII, by path or by title.
pub proof fn namespaces_are_ascii(archive: ArchiveView, namespace: char, text: Seq<char>)
    requires
        namespace as u32 >= 0x80,
    ensures
        archive.find_by_path(Some(namespace), text) == Ok::<Option<DirentView>, ErrorView>(None),
        archive.find_by_title(Some(namespace), text) == Ok::<Option<DirentView>, ErrorView>(None),
{
}

/// Every entry that can be read is found by its namespace and its whole title,
/// where the title pointer list is sorted: the search gives the index of an
/// entry with that key, and its own index if no other rank has the key.
pub proof fn entry_is_found_by_title(archive: ArchiveView, rank: int, entry: DirentView)
    requires
        archive.valid(),
        archive.titles_are_sorted(),
        0 <= rank < archive.header.entry_count,
        archive.title_dirent(rank) == Ok::<Option<DirentView>, ErrorView>(Some(entry)),
    ensures
        ({
            let full_title = encode_utf8(seq![entry.namespace()] + entry.title());
            match archive.search_title(full_title) {
                Ok(Some(idx)) => {
                    &&& exists|r: int|
                        0 <= r < archive.header.entry_count && #[trigger] archive.title_key(r)
                            == Ok::<Seq<u8>, ErrorView>(full_title) && archive.title_entry(r)
                            == Ok::<nat, ErrorView>(idx as nat)
                    &&& (forall|r: int|
                        0 <= r < archive.header.entry_count && r != rank
                            ==> #[trigger] archive.title_key(r) != Ok::<Seq<u8>, ErrorView>(
                            full_title,
                        )) ==> archive.title_entry(rank) == Ok::<nat, ErrorView>(idx as nat)
                },
                _ => false,
            }
        }),
{
    title_key_is_namespace_and_title(archive, rank, entry);
    title_search_is_exact(archive, encode_utf8(seq![entry.namespace()] + entry.title()));
}

/// An entry that a search by title finds and that can be read has the namespace
/// and the title that were looked for, where the title pointer list is sorted.
pub proof fn entry_found_by_title_has_the_title(
    archive: ArchiveView,
    namespace: char,
    title: Seq<char>,
    idx: int,
    entry: DirentView,
)
    requires
        archive.valid(),
        archive.titles_are_sorted(),
        0 <= idx,
        archive.search_title(encode_utf8(seq![namespace] + title)) == Ok::<Option<int>, ErrorView>(
            Some(idx),
        ),
        archive.dirent_at(idx) == Ok::<Option<DirentView>, ErrorView>(Some(entry)),
    ensures
        entry.namespace() == namespace,
        entry.title() == title,
{
    let wanted = seq![namespace] + title;
    title_search_is_exact(archive, encode_utf8(wanted));
    let rank = choose|rank: int|
        0 <= rank < archive.header.entry_count && #[trigger] archive.title_key(rank) == Ok::<
            Seq<u8>,
            ErrorView,
        >(encode_utf8(wanted)) && archive.title_entry(rank) == Ok::<nat, ErrorView>(idx as nat);
    title_key_is_namespace_and_title(archive, rank, entry);
    let found = seq![entry.namespace()] + entry.title();
    keys_tell_names_apart(wanted, found);
    assert(wanted[0] == found[0]);
    assert(wanted.skip(1) =~= title);
    assert(found.skip(1) =~= entry.title());
}

/// Whether an entry can be read at this rank of the title pointer list, and its
/// namespace and title start with `prefix`.
pub open spec fn matches_at(archive: ArchiveView, prefix: Seq<u8>, rank: int) -> bool {
    archive.title_dirent(rank) matches Ok(Some(entry)) && prefix.is_prefix_of(
        encode_utf8(seq![entry.namespace()] + entry.title()),
    )
}

/// Whether `hits` are the entries at these ranks of the title pointer list,
/// which go up, and all of them match.
pub open spec fn are_hits_at(
    archive: ArchiveView,
    prefix: Seq<u8>,
    hits: Seq<DirentView>,
    ranks: Seq<int>,
) -> bool {
    &&& ranks.len() == hits.len()
    &&& forall|k: int|
        0 <= k < ranks.len() ==> {
            &&& 0 <= #[trigger] ranks[k] < archive.header.entry_count
            &&& matches_at(archive, prefix, ranks[k])
            &&& archive.title_dirent(ranks[k]) == Ok::<Option<DirentView>, ErrorView>(
                Some(hits[k]),
            )
        }
    &&& forall|j: int, k: int| 0 <= j < k < ranks.len() ==> ranks[j] < ranks[k]
}

/// Whether a rank of the title pointer list has a key that starts with `prefix`
/// and an entry that is not deprecated: one that matches, or that cannot be
/// read.
pub open spec fn counts_at(archive: ArchiveView, prefix: Seq<u8>, rank: int) -> bool {
    &&& archive.title_key(rank) matches Ok(key) && prefix.is_prefix_of(key)
    &&& archive.title_dirent(rank) != Ok::<Option<DirentView>, ErrorView>(None)
}

/// The entries of a run stand at ranks that go up, and no rank that counts is
/// left out, unless the limit is reached before.
proof fn lemma_run_ranks(archive: ArchiveView, prefix: Seq<u8>, rank: int, limit: nat) -> (ranks:
    Seq<int>)
    requires
        archive.valid(),
        archive.titles_are_sorted(),
        0 <= rank,
        forall|i: int|
            rank <= i < archive.header.entry_count ==> !crate::order::precedes(
                (#[trigger] archive.title_key(i))->Ok_0,
                prefix,
            ),
    ensures
        forall|k: int| 0 <= k < ranks.len() ==> rank <= #[trigger] ranks[k],
        match archive.prefix_run(prefix, rank, limit) {
            Ok(hits) => {
                &&& hits.len() <= limit
                &&& are_hits_at(archive, prefix, hits, ranks)
                &&& forall|r: int|
                    rank <= r < archive.header.entry_count && #[trigger] counts_at(
                        archive,
                        prefix,
                        r,
                    ) ==> ranks.contains(r) || hits.len() == limit && forall|k: int|
                        0 <= k < ranks.len() ==> #[trigger] ranks[k] < r
            },
            Err(error) => exists|r: int|
                rank <= r < archive.header.entry_count && #[trigger] counts_at(archive, prefix, r)
                    && archive.title_dirent(r) == Err::<Option<DirentView>, ErrorView>(error),
        },
    decreases archive.header.entry_count - rank,
{
    let n = archive.header.entry_count as int;
    if limit == 0 || rank >= n {
        Seq::empty()
    } else {
        let keys = archive.title_keys();
        assert(keys(rank) is Ok);
        let key = archive.title_key(rank)->Ok_0;
        if !prefix.is_prefix_of(key) {
            assert forall|r: int| rank <= r < n implies !#[trigger] counts_at(
                archive,
                prefix,
                r,
            ) by {
                if r > rank {
                    assert(!crate::order::precedes(keys(r)->Ok_0, keys(rank)->Ok_0));
                    crate::order::prefix_run_is_contiguous(
                        prefix,
                        key,
                        archive.title_key(r)->Ok_0,
                    );
                }
            }
            Seq::empty()
        } else {
            match archive.title_dirent(rank) {
                Err(error) => {
                    assert(counts_at(archive, prefix, rank));
                    Seq::empty()
                },
                Ok(None) => lemma_run_ranks(archive, prefix, rank + 1, limit),
                Ok(Some(entry)) => {
                    let later = lemma_run_ranks(archive, prefix, rank + 1, (limit - 1) as nat);
                    title_key_is_namespace_and_title(archive, rank, entry);
                    let ranks = seq![rank] + later;
                    if let Ok(rest) = archive.prefix_run(prefix, rank + 1, (limit - 1) as nat) {
                        let hits = seq![entry] + rest;
                        assert forall|k: int| 0 <= k < ranks.len() implies {
                            &&& rank <= #[trigger] ranks[k] < n
                            &&& matches_at(archive, prefix, ranks[k])
                            &&& archive.title_dirent(ranks[k]) == Ok::<
                                Option<DirentView>,
                                ErrorView,
                            >(Some(hits[k]))
                        } by {
                            if k > 0 {
                                assert(ranks[k] == later[k - 1]);
                                assert(hits[k] == rest[k - 1]);
                            }
                        }
                        assert(are_hits_at(archive, prefix, hits, ranks));
                        assert forall|r: int|
                            rank <= r < n && #[trigger] counts_at(
                                archive,
                                prefix,
                                r,
                            ) implies ranks.contains(r) || hits.len() == limit && forall|k: int|
                            0 <= k < ranks.len() ==> #[trigger] ranks[k] < r by {
                            if r == rank {
                                assert(ranks[0] == r);
                            } else if later.contains(r) {
                                assert(ranks[later.index_of(r) + 1] == r);
                            } else {
                                assert forall|k: int|
                                    0 <= k < ranks.len() implies #[trigger] ranks[k] < r by {
                                    if k > 0 {
                                        assert(ranks[k] == later[k - 1]);
                                    }
                                }
                            }
                        }
                    }
                    ranks
                },
            }
        }
    }
}

/// An entry that matches counts.
pub proof fn match_counts(archive: ArchiveView, prefix: Seq<u8>, rank: int)
    requires
        archive.valid(),
        matches_at(archive, prefix, rank),
    ensures
        counts_at(archive, prefix, rank),
{
    title_key_is_namespace_and_title(archive, rank, archive.title_dirent(rank)->Ok_0->Some_0);
}

/// Where the title pointer list is sorted, a prefix search gives entries that
/// match, in the order of their ranks, and no more than `limit`; it leaves out
/// a rank that counts only if it has found `limit` entries of lower rank. The
/// error that it reports is that of reading an entry whose key starts with the
/// prefix.
pub proof fn prefix_search_gives_the_first_matches(
    archive: ArchiveView,
    prefix: Seq<u8>,
    limit: nat,
)
    requires
        archive.valid(),
        archive.titles_are_sorted(),
    ensures
        match archive.search_title_prefix(prefix, limit) {
            Ok(hits) => {
                &&& hits.len() <= limit
                &&& exists|ranks: Seq<int>|
                    {
                        &&& #[trigger] are_hits_at(archive, prefix, hits, ranks)
                        &&& forall|r: int|
                            0 <= r < archive.header.entry_count && #[trigger] counts_at(
                                archive,
                                prefix,
                                r,
                            ) ==> ranks.contains(r) || hits.len() == limit && forall|k: int|
                                0 <= k < ranks.len() ==> #[trigger] ranks[k] < r
                    }
            },
            Err(error) => exists|r: int|
                0 <= r < archive.header.entry_count && #[trigger] counts_at(archive, prefix, r)
                    && archive.title_dirent(r) == Err::<Option<DirentView>, ErrorView>(error),
        },
{
    let n = archive.header.entry_count as int;
    let keys = archive.title_keys();
    crate::search::lower_bound_parts_keys(keys, prefix, n);
    let bound = crate::search::lower_bound(keys, prefix, 0, n)->Ok_0;
    assert forall|i: int| bound <= i < n implies !crate::order::precedes(
        (#[trigger] archive.title_key(i))->Ok_0,
        prefix,
    ) by {
        assert(!crate::order::precedes(keys(i)->Ok_0, prefix));
    }
    assert forall|r: int| 0 <= r < bound implies !#[trigger] counts_at(archive, prefix, r) by {
        assert(crate::order::precedes(keys(r)->Ok_0, prefix));
        if prefix.is_prefix_of(archive.title_key(r)->Ok_0) {
            crate::order::prefix_is_not_after(prefix, archive.title_key(r)->Ok_0);
        }
    }
    let ranks = lemma_run_ranks(archive, prefix, bound, limit);
    if let Ok(hits) = archive.search_title_prefix(prefix, limit) {
        assert(are_hits_at(archive, prefix, hits, ranks));
    }
}

/// Where the title pointer list is sorted, a lookup by title gives the matching
/// entry of the lowest rank that counts, and nothing only if no rank counts.
/// The error that it reports is that of reading an entry whose key starts with
/// the title.
pub proof fn title_lookup_gives_the_match_of_lowest_rank(
    archive: ArchiveView,
    namespace: char,
    title: Seq<char>,
)
    requires
        archive.valid(),
        (namespace as u32) < 0x80,
        archive.titles_are_sorted(),
    ensures
        ({
            let prefix = encode_utf8(seq![namespace] + title);
            match archive.find_by_title(Some(namespace), title) {
                Ok(Some(entry)) => exists|rank: int|
                    {
                        &&& 0 <= rank < archive.header.entry_count
                        &&& #[trigger] matches_at(archive, prefix, rank)
                        &&& archive.title_dirent(rank) == Ok::<Option<DirentView>, ErrorView>(
                            Some(entry),
                        )
                        &&& forall|r: int|
                            0 <= r < rank ==> !#[trigger] counts_at(archive, prefix, r)
                    },
                Ok(None) => forall|r: int|
                    0 <= r < archive.header.entry_count ==> !#[trigger] counts_at(
                        archive,
                        prefix,
                        r,
                    ),
                Err(error) => exists|r: int|
                    0 <= r < archive.header.entry_count && #[trigger] counts_at(archive, prefix, r)
                        && archive.title_dirent(r) == Err::<Option<DirentView>, ErrorView>(error),
            }
        }),
{
    let prefix = encode_utf8(seq![namespace] + title);
    prefix_search_gives_the_first_matches(archive, prefix, 1);
    if let Ok(hits) = archive.search_title_prefix(prefix, 1) {
        let ranks = choose|ranks: Seq<int>|
            {
                &&& #[trigger] are_hits_at(archive, prefix, hits, ranks)
                &&& forall|r: int|
                    0 <= r < archive.header.entry_count && #[trigger] counts_at(archive, prefix, r)
                        ==> ranks.contains(r) || hits.len() == 1 && forall|k: int|
                        0 <= k < ranks.len() ==> #[trigger] ranks[k] < r
            };
        if hits.len() == 1 {
            let rank = ranks[0];
            assert(matches_at(archive, prefix, rank));
            assert forall|r: int| 0 <= r < rank implies !#[trigger] counts_at(
                archive,
                prefix,
                r,
            ) by {
                if counts_at(archive, prefix, r) && ranks.contains(r) {
                    assert(ranks[ranks.index_of(r)] == r);
                }
            }
        }
    }
}

/// Without a namespace, a title is looked for among the articles.
pub proof fn title_is_looked_for_among_the_articles(archive: ArchiveView, title: Seq<char>)
    ensures
        archive.namespace_mode == NamespaceMode::New ==> archive.find_by_title(None, title)
            == archive.find_by_title(Some('C'), title),
        archive.namespace_mode == NamespaceMode::Legacy ==> archive.find_by_title(None, title)
            == archive.find_by_title(Some('A'), title),
{
}

/// The bytes of two strings one behind the other are the bytes of the first and
/// those of the second.
proof fn lemma_bytes_of_two(a: Seq<char>, b: Seq<char>)
    ensures
        encode_utf8(a + b) == encode_utf8(a) + encode_utf8(b),
    decreases a.len(),
{
    if a.len() == 0 {
        assert(a + b =~= b);
        assert(encode_utf8(a) + encode_utf8(b) =~= encode_utf8(b));
    } else {
        lemma_bytes_of_two(a.drop_first(), b);
        assert((a + b).drop_first() =~= a.drop_first() + b);
        assert(encode_utf8(a + b) =~= encode_utf8(a) + encode_utf8(b));
    }
}

/// An entry matches the start of its own title, however long that is, and its
/// whole title too.
pub proof fn entry_matches_the_start_of_its_title(
    archive: ArchiveView,
    rank: int,
    entry: DirentView,
    start: Seq<char>,
)
    requires
        archive.title_dirent(rank) == Ok::<Option<DirentView>, ErrorView>(Some(entry)),
        start.is_prefix_of(entry.title()),
    ensures
        matches_at(archive, encode_utf8(seq![entry.namespace()] + start), rank),
{
    let a = seq![entry.namespace()] + start;
    let b = entry.title().skip(start.len() as int);
    assert(start + b =~= entry.title());
    assert(a + b =~= seq![entry.namespace()] + entry.title());
    lemma_bytes_of_two(a, b);
    assert((encode_utf8(a) + encode_utf8(b)).subrange(0, encode_utf8(a).len() as int)
        =~= encode_utf8(a));
}

/// What a search result says is the index that it holds.
pub proof fn search_result_says_its_index(result: Result<Option<u32>, Error>)
    ensures
        match result {
            Ok(Some(idx)) => index_outcome(result) == Ok::<Option<int>, ErrorView>(
                Some(idx as int),
            ),
            Ok(None) => index_outcome(result) == Ok::<Option<int>, ErrorView>(None),
            Err(error) => index_outcome(result) == Err::<Option<int>, ErrorView>(error@),
        },
{
}

/// An entry or a key that is read has its pointer in the file, and is what
/// stands where that pointer points to.
pub proof fn entry_that_is_read_has_its_pointer_in_the_file(archive: ArchiveView, idx: int)
    requires
        archive.valid(),
        0 <= idx,
        archive.dirent_at(idx) is Ok || archive.path_key(idx) is Ok,
    ensures
        idx < archive.header.entry_count,
        archive.header.path_ptr_pos + 8 * idx + 8 <= archive.data.len(),
        ({
            let at = archive.header.path_ptr_pos + 8 * idx;
            let offset = crate::util::le_value(archive.data.subrange(at, at + 8)) as int;
            &&& offset < archive.data.len()
            &&& archive.dirent_at(idx) == crate::dirent::dirent_at(
                archive.data,
                offset,
                archive.mime_types.len(),
            )
        }),
{
    crate::util::le_limits();
}

/// A rank that names an entry has its pointer in the file, and names the entry
/// whose index stands there.
pub proof fn rank_that_names_an_entry_has_its_pointer_in_the_file(
    archive: ArchiveView,
    rank: int,
    idx: nat,
)
    requires
        archive.valid(),
        0 <= rank,
        archive.title_entry(rank) == Ok::<nat, ErrorView>(idx),
    ensures
        ({
            let at = archive.header.title_ptr_pos + 4 * rank;
            &&& at + 4 <= archive.data.len()
            &&& archive.data.subrange(at, at + 4) == crate::util::le_bytes(idx, 4)
        }),
        archive.title_dirent(rank) == archive.dirent_at(idx as int),
{
    crate::pointer_list::title_pointers_have_four_bytes(
        archive.data,
        archive.header.title_ptr_pos as int,
        rank,
    );
}

} // verus!
