//! The two namespace conventions of archives.
use vstd::prelude::*;

use crate::header::{Header, HeaderView};

verus! {

/// Which namespace convention an archive uses.
#[non_exhaustive]
#[derive(Debug, Clone, Copy, PartialEq, Eq, Structural)]
pub enum NamespaceMode {
    /// v6.1+ unified namespace (`C` for content, `M` for metadata, `W` for
    /// well-known).
    New,
    /// v5 / pre-2021 multi-namespace (`A` for articles, `I` for images, etc.).
    Legacy,
}

/// The meaning of a namespace character.
#[non_exhaustive]
#[derive(Debug, Clone, Copy, PartialEq, Eq, Hash, Structural)]
pub enum Namespace {
    /// `C` in New mode, `A` in Legacy mode.
    Content,
    /// `I` (Legacy only).
    Images,
    /// `M` in New mode, `-` in Legacy mode.
    Metadata,
    /// `W` in New mode (absent in Legacy).
    WellKnown,
    /// `X`, the Xapian full-text search index.
    Search,
    /// Any other character.
    Other(char),
}

/// The convention of an archive with this header: New from version 6.1 on.
pub open spec fn namespace_mode_of(header: HeaderView) -> NamespaceMode {
    if header.major_version == 6 && header.minor_version >= 1 {
        NamespaceMode::New
    } else {
        NamespaceMode::Legacy
    }
}

/// The namespace of user-facing articles.
pub open spec fn article_namespace_of(mode: NamespaceMode) -> char {
    match mode {
        NamespaceMode::New => 'C',
        NamespaceMode::Legacy => 'A',
    }
}

/// The namespace of metadata entries.
pub open spec fn metadata_namespace_of(mode: NamespaceMode) -> char {
    match mode {
        NamespaceMode::New => 'M',
        NamespaceMode::Legacy => '-',
    }
}

/// The convention of an archive with this header.
pub fn detect_namespace_mode(header: &Header) -> (mode: NamespaceMode)
    ensures
        mode == namespace_mode_of(header@),
{
    if header.major_version == 6 && header.minor_version >= 1 {
        NamespaceMode::New
    } else {
        NamespaceMode::Legacy
    }
}

/// The namespace character used for user-facing articles in `mode`.
pub fn article_namespace(mode: NamespaceMode) -> (namespace: char)
    ensures
        namespace == article_namespace_of(mode),
{
    match mode {
        NamespaceMode::New => 'C',
        NamespaceMode::Legacy => 'A',
    }
}

/// The namespace character used for metadata entries in `mode`.
pub fn metadata_namespace(mode: NamespaceMode) -> (namespace: char)
    ensures
        namespace == metadata_namespace_of(mode),
{
    match mode {
        NamespaceMode::New => 'M',
        NamespaceMode::Legacy => '-',
    }
}

/// Archives of version 6.1 and later have articles in `C` and metadata in `M`;
/// all older ones have articles in `A` and metadata in `-`.
pub proof fn version_decides_the_namespaces(header: HeaderView)
    ensures
        ({
            let mode = namespace_mode_of(header);
            if header.major_version == 6 && header.minor_version > 0 {
                mode == NamespaceMode::New && article_namespace_of(mode) == 'C'
                    && metadata_namespace_of(mode) == 'M'
            } else {
                mode == NamespaceMode::Legacy && article_namespace_of(mode) == 'A'
                    && metadata_namespace_of(mode) == '-'
            }
        }),
{
}

} // verus!
