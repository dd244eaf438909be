//! Split archives: files that hold one part of an archive each.
use vstd::prelude::*;
use vstd::string::*;
use vstd::utf8::*;

use crate::boundary::path_extension;

verus! {

/// Whether a character is a lower-case ASCII letter.
pub open spec fn is_lower(c: char) -> bool {
    'a' <= c <= 'z'
}

/// Whether an extension is that of one part of a split archive: `zim` and two
/// lower-case letters.
pub open spec fn is_part_extension(extension: Seq<char>) -> bool {
    &&& extension.len() == 5
    &&& extension[0] == 'z'
    &&& extension[1] == 'i'
    &&& extension[2] == 'm'
    &&& is_lower(extension[3])
    &&& is_lower(extension[4])
}

/// Whether a path names one part of a split archive.
pub open spec fn is_part_path(path: Seq<char>) -> bool {
    match crate::boundary::extension_of(path) {
        Some(extension) => is_part_extension(extension),
        None => false,
    }
}

/// The bytes of an extension spell `zim` and two lower-case letters exactly if
/// its characters do.
proof fn lemma_part_bytes(extension: Seq<char>)
    ensures
        is_part_extension(extension) <==> {
            let bytes = encode_utf8(extension);
            &&& bytes.len() == 5
            &&& bytes[0] == 0x7A
            &&& bytes[1] == 0x69
            &&& bytes[2] == 0x6D
            &&& 0x61 <= bytes[3] <= 0x7A
            &&& 0x61 <= bytes[4] <= 0x7A
        },
{
    let bytes = encode_utf8(extension);
    if is_part_extension(extension) {
        is_ascii_chars_encode_utf8(extension);
    } else if bytes.len() == 5 && bytes[0] == 0x7A && bytes[1] == 0x69 && bytes[2] == 0x6D && 0x61
        <= bytes[3] <= 0x7A && 0x61 <= bytes[4] <= 0x7A {
        let chars = seq!['z', 'i', 'm', bytes[3] as char, bytes[4] as char];
        is_ascii_chars_encode_utf8(chars);
        assert(encode_utf8(chars) =~= bytes);
        encode_utf8_decode_utf8(chars);
        encode_utf8_decode_utf8(extension);
        assert(chars == extension);
    }
}

/// Tells whether an extension is that of one part of a split archive:
/// `zimaa`, `zimab`, ..., `zimzz`.
pub fn is_split_extension(extension: &str) -> (yes: bool)
    ensures
        yes == is_part_extension(extension@),
{
    proof {
        lemma_part_bytes(extension@);
    }
    let bytes: &[u8] = extension.as_bytes();
    bytes.len() == 5 && bytes[0] == 0x7A && bytes[1] == 0x69 && bytes[2] == 0x6D && bytes[3]
        >= 0x61 && bytes[3] <= 0x7A && bytes[4] >= 0x61 && bytes[4] <= 0x7A
}

/// Whether a path ends in a dot and the extension of a part.
pub open spec fn ends_in_part(path: Seq<char>) -> bool {
    path.len() >= 6 && path[path.len() - 6] == '.' && is_part_extension(path.skip(path.len() - 5))
}

/// Whether a path names one part of a split archive, if that is the same on
/// every platform. It is on plain paths; on paths that end in the extension of
/// a part, where that is the extension for certain; and on paths that end
/// neither in one nor in a separator.
pub open spec fn split_verdict(path: Seq<char>) -> Option<bool> {
    if crate::boundary::is_plain_path(path) {
        Some(is_part_path(path))
    } else if ends_in_part(path) {
        if crate::boundary::extension_is_certain(path) {
            Some(true)
        } else {
            None
        }
    } else if crate::boundary::ends_in_separator(path) {
        None
    } else {
        Some(false)
    }
}

/// Behind the last dot there is no dot.
proof fn lemma_after_last(text: Seq<char>, c: char, start: int)
    requires
        0 < start <= text.len(),
        text[start - 1] == c,
        forall|i: int| start <= i < text.len() ==> text[i] != c,
    ensures
        crate::boundary::after_last(text, c) == start,
    decreases text.len(),
{
    if start < text.len() {
        lemma_after_last(text.drop_last(), c, start);
    }
}

/// Where a character does not occur from `end` on, its last occurrence is
/// before.
proof fn lemma_after_last_bound(text: Seq<char>, c: char, end: int)
    requires
        0 <= end <= text.len(),
        forall|i: int| end <= i < text.len() ==> text[i] != c,
    ensures
        0 <= crate::boundary::after_last(text, c) <= end,
    decreases text.len(),
{
    if end < text.len() {
        lemma_after_last_bound(text.drop_last(), c, end);
    } else if text.len() > 0 && text.last() != c {
        lemma_after_last_bound(text.drop_last(), c, end - 1);
    }
}

/// A path that ends in `.zim` names no part of a split archive on any
/// platform, whatever stands before.
pub proof fn zim_file_is_no_part(path: Seq<char>)
    requires
        path.len() >= 4,
        path.skip(path.len() - 4) == seq!['.', 'z', 'i', 'm'],
    ensures
        split_verdict(path) == Some(false),
{
    let n = path.len() as int;
    let tail = path.skip(n - 4);
    assert forall|i: int| 0 <= i < 4 implies path[n - 4 + i] == #[trigger] tail[i] by {}
    assert(path[n - 4] == tail[0] && path[n - 3] == tail[1] && path[n - 2] == tail[2] && path[n - 1]
        == tail[3]);
    if ends_in_part(path) {
        assert(path.skip(n - 5)[1] == path[n - 4]);
    }
    lemma_after_last_bound(path, '/', n - 4);
    let name = crate::boundary::file_name_of(path);
    let from = crate::boundary::after_last(path, '/');
    assert(crate::boundary::trimmed_path(path) == path);
    assert(name == path.skip(from));
    lemma_after_last(name, '.', name.len() - 3);
}

/// Tells whether a path names one part of a split archive, by what the
/// platform takes as its extension.
pub fn is_split_archive_path(path: &str) -> (yes: bool)
    ensures
        split_verdict(path@) matches Some(verdict) ==> yes == verdict,
{
    match path_extension(path) {
        Some(extension) => {
            proof {
                let n = path@.len() as int;
                if ends_in_part(path@) {
                    let part = path@.skip(n - 5);
                    assert forall|i: int| n - 5 <= i < n implies path@[i] != '.' by {
                        assert(path@[i] == part[i - (n - 5)]);
                    }
                    lemma_after_last(path@, '.', n - 5);
                } else if !crate::boundary::ends_in_separator(path@) && is_part_extension(
                    extension@,
                ) {
                    let tail = seq!['.'] + extension@;
                    assert(tail == path@.subrange(n - 6, n));
                    assert(path@[n - 6] == tail[0]);
                    assert forall|i: int| 0 <= i < 5 implies path@.skip(n - 5)[i]
                        == extension@[i] by {
                        assert(path@[n - 6 + (i + 1)] == tail[i + 1]);
                    }
                    assert(path@.skip(n - 5) =~= extension@);
                }
            }
            is_split_extension(extension)
        },
        None => false,
    }
}

/// A path that ends in a dot, `zim` and two lower-case letters names one part
/// of a split archive, whichever letters they are, if some character of a file
/// name stands before the dot and the path does not start with two separators.
pub proof fn part_file_is_a_part(path: Seq<char>, first: char, second: char)
    requires
        path.len() >= 7,
        path.skip(path.len() - 6) == seq!['.', 'z', 'i', 'm', first, second],
        'a' <= first <= 'z',
        'a' <= second <= 'z',
        path[path.len() - 7] != '/',
        path[path.len() - 7] != '\\',
        path[path.len() - 7] != ':',
        !((path[0] == '/' || path[0] == '\\') && (path[1] == '/' || path[1] == '\\')),
    ensures
        split_verdict(path) == Some(true),
{
    let n = path.len() as int;
    let tail = path.skip(n - 6);
    assert forall|i: int| 0 <= i < 6 implies path[n - 6 + i] == #[trigger] tail[i] by {}
    assert(path[n - 6] == tail[0] && path[n - 5] == tail[1] && path[n - 4] == tail[2] && path[n - 3]
        == tail[3] && path[n - 2] == tail[4] && path[n - 1] == tail[5]);
    let part = path.skip(n - 5);
    assert(part =~= seq!['z', 'i', 'm', first, second]);
    lemma_after_last(path, '.', n - 5);
    lemma_after_last_bound(path, '/', n - 6);
    let from = crate::boundary::after_last(path, '/');
    let name = crate::boundary::file_name_of(path);
    assert(crate::boundary::trimmed_path(path) == path);
    assert(name == path.skip(from));
    if from == n - 6 {
        lemma_before_after_last(path, '/');
    }
    assert(name.len() >= 7);
    lemma_after_last(name, '.', name.len() - 5);
    reveal_strlit("..");
    assert(name.skip(name.len() - 5) =~= part);
    assert(crate::boundary::extension_is_certain(path));
}

/// Directly before the position behind the last occurrence, the character
/// stands.
proof fn lemma_before_after_last(text: Seq<char>, c: char)
    ensures
        0 <= crate::boundary::after_last(text, c) <= text.len(),
        crate::boundary::after_last(text, c) > 0 ==> text[crate::boundary::after_last(text, c) - 1]
            == c,
    decreases text.len(),
{
    if text.len() > 0 && text.last() != c {
        lemma_before_after_last(text.drop_last(), c);
    }
}

/// A path whose last character belongs to its file name names no part of a
/// split archive, unless it ends in a dot, `zim` and two lower-case letters.
pub proof fn other_file_is_no_part(path: Seq<char>)
    requires
        path.len() > 0,
        path.last() != '/',
        path.last() != '\\',
        path.last() != '.',
        path.len() < 6 || path[path.len() - 6] != '.' || path[path.len() - 5] != 'z'
            || path[path.len() - 4] != 'i' || path[path.len() - 3] != 'm' || !('a'
            <= path[path.len() - 2] <= 'z') || !('a' <= path[path.len() - 1] <= 'z'),
    ensures
        split_verdict(path) == Some(false),
{
    let n = path.len() as int;
    if path.len() >= 6 {
        let part = path.skip(n - 5);
        assert(part[0] == path[n - 5] && part[1] == path[n - 4] && part[2] == path[n - 3] && part[3]
            == path[n - 2] && part[4] == path[n - 1]);
    }
    assert(!ends_in_part(path));
    if is_part_path(path) {
        assert(crate::boundary::trimmed_path(path) == path);
        let from = crate::boundary::after_last(path, '/');
        lemma_before_after_last(path, '/');
        let name = path.skip(from);
        let start = crate::boundary::after_last(name, '.');
        lemma_before_after_last(name, '.');
        let extension = name.skip(start);
        assert(is_part_extension(extension));
        assert(name.len() == start + 5);
        assert(name[start - 1] == path[from + start - 1]);
        assert(extension =~= path.skip(n - 5));
        assert(false);
    }
}

/// The extensions of parts are `zim` and any two lower-case letters, and no
/// others.
pub proof fn part_extensions_are_zim_and_two_letters(extension: Seq<char>)
    ensures
        is_part_extension(extension) <==> exists|first: char, second: char|
            'a' <= first <= 'z' && 'a' <= second <= 'z' && extension == #[trigger] seq![
                'z',
                'i',
                'm',
                first,
                second,
            ],
{
    if is_part_extension(extension) {
        assert(extension =~= seq!['z', 'i', 'm', extension[3], extension[4]]);
    }
}

} // verus!
