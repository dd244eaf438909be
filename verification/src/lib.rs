//! A pure-Rust, read-only library for [ZIM archive files], the offline content
//! format used by [Kiwix] for Wikipedia, Wiktionary, Stack Exchange and similar
//! wiki-style corpora.
//!
//! An [`Archive`] is opened from the bytes of a `.zim` file, which may be a
//! memory map. Header, MIME list and namespace mode are resolved at open time;
//! directory entries, clusters and blobs are read on demand.
//!
//! # Quick start
//!
//! ```no_run
//! use zim_reader::Archive;
//!
//! fn show(bytes: &[u8]) -> Result<(), zim_reader::Error> {
//!     let archive = Archive::open("wikipedia.zim", bytes)?;
//!     if let Some(article) = archive.get_article("A/Rust_(programming_language)")? {
//!         println!("{} bytes, mime: {}", article.data.len(), article.mime_type(&archive));
//!     }
//!     Ok(())
//! }
//! ```
//!
//! # Contracts
//!
//! What each function returns is stated over the bytes of the file: `header_of`
//! says what a header is, `dirent_at` what a directory entry is, `blob_of` what
//! a blob is, and so on, errors and the order in which they are found
//! included. What holds of these as a whole is stated by public proof
//! functions: that what was written is read back, that a search of a sorted
//! list finds what is there, that redirects end. The module [`boundary`] holds
//! what is believed of the standard library and of the decoders.
//!
//! [ZIM archive files]: https://wiki.openzim.org/wiki/ZIM_file_format
//! [Kiwix]: https://www.kiwix.org/

use vstd::prelude::*;

pub mod archive;
pub mod article;
pub mod boundary;
pub mod cluster;
pub mod content;
pub mod dirent;
pub mod entries;
pub mod error;
pub mod header;
pub mod lookup;
pub mod mime;
pub mod namespace;
pub mod order;
pub mod pointer_list;
pub mod search;
pub mod split;
pub mod text;
pub mod util;
pub mod xz;

pub use crate::archive::{Archive, ArchiveOptions, VerifyChecksum};
pub use crate::article::Article;
pub use crate::dirent::{ContentEntry, Dirent, RedirectEntry};
pub use crate::entries::{ArticleIter, EntryIter};
pub use crate::error::Error;
pub use crate::header::Header;
pub use crate::namespace::{article_namespace, metadata_namespace, Namespace, NamespaceMode};

verus! {

/// The result of the library's fallible functions.
pub type Result<T> = core::result::Result<T, Error>;

} // verus!
