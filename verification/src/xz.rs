//! The one xz footer that the decoder cannot always take.
//!
//! Behind its blocks, an xz stream has an index and a footer with the size of
//! the index, the backward size. The decoder adds one to that size in 32 bits
//! and takes the sum times four. Of the backward size 0xFFFFFFFF this makes zero
//! in a build without overflow checks, and the decoder reports that the index
//! has another size; in a build with them it panics. Of 0x3FFFFFFF it makes zero
//! in every build, so that size is put in the place of the other before such a
//! stream is decoded. All other streams are decoded as they are.
use vstd::prelude::*;
use vstd::slice::slice_to_vec;

use crate::boundary::{lzma2_span, xz_decode};

verus! {

/// The length of the stream header.
pub const STREAM_HEADER_SIZE: usize = 12;

/// How many bytes at most a number in an index takes.
pub const NUMBER_SIZE: u32 = 9;

/// `n` rounded up to a multiple of four.
pub open spec fn aligned(n: int) -> int {
    (n + 3) / 4 * 4
}

/// The length of the check behind each block, by the flags in the stream
/// header: none, CRC-32, CRC-64 or, with the flag 0x0A, SHA-256. The decoder
/// rejects other flags, and fails at the first check that is a SHA-256.
pub open spec fn check_size(flag: u8) -> int {
    if flag == 0 {
        0
    } else if flag == 1 {
        4
    } else if flag == 4 {
        8
    } else {
        32
    }
}

/// Where the index starts, and how many blocks stand before it, if `blocks`
/// blocks stand before `pos`. An index starts with a null byte. A block starts
/// with the size of its header in units of four bytes, the checksum of the
/// header not counted; LZMA2 data follows the header, and then come padding and
/// a check of `check` bytes.
pub open spec fn index_from(data: Seq<u8>, pos: int, blocks: nat, check: int) -> Option<(int, nat)>
    decreases
            if pos < data.len() {
                data.len() - pos
            } else {
                0
            },
{
    if pos < 0 || pos >= data.len() || check < 0 {
        None
    } else if data[pos] == 0 {
        Some((pos, blocks))
    } else {
        let body = pos + 4 * data[pos] + 4;
        if body > data.len() {
            None
        } else {
            match crate::boundary::lzma2_length(data.skip(body)) {
                None => None,
                Some(len) => index_from(data, aligned(body + len) + check, blocks + 1, check),
            }
        }
    }
}

/// Where a number of at most `left` bytes ends that starts at `pos`: behind its
/// first byte below 0x80.
pub open spec fn number_end(data: Seq<u8>, pos: int, left: nat) -> Option<int>
    decreases left,
{
    if left == 0 || pos < 0 || pos >= data.len() {
        None
    } else if data[pos] < 0x80 {
        Some(pos + 1)
    } else {
        number_end(data, pos + 1, (left - 1) as nat)
    }
}

/// Where `count` numbers end that start at `pos`.
pub open spec fn numbers_end(data: Seq<u8>, pos: int, count: nat) -> Option<int>
    decreases count,
{
    if count == 0 {
        Some(pos)
    } else {
        match number_end(data, pos, NUMBER_SIZE as nat) {
            None => None,
            Some(end) => numbers_end(data, end, (count - 1) as nat),
        }
    }
}

/// Where the decoder reads the backward size, if it gets that far. The index
/// holds, behind its null byte, the number of blocks and two sizes for each of
/// them; padding and two checksums follow, its own and that of the footer.
pub open spec fn backward_size_at(data: Seq<u8>) -> Option<int> {
    if data.len() < STREAM_HEADER_SIZE {
        None
    } else {
        match index_from(data, STREAM_HEADER_SIZE as int, 0, check_size(data[7])) {
            None => None,
            Some((start, blocks)) => match numbers_end(data, start + 1, 1 + 2 * blocks) {
                None => None,
                Some(end) => Some(aligned(end) + 8),
            },
        }
    }
}

/// Whether the word 0xFFFFFFFF stands at `pos`.
pub open spec fn is_largest_word(data: Seq<u8>, pos: int) -> bool {
    &&& 0 <= pos
    &&& pos + 4 <= data.len()
    &&& data[pos] == 0xFF
    &&& data[pos + 1] == 0xFF
    &&& data[pos + 2] == 0xFF
    &&& data[pos + 3] == 0xFF
}

/// Whether the word that the decoder reads as the backward size, if it gets
/// that far, is 0xFFFFFFFF.
pub open spec fn footer_overflows(data: Seq<u8>) -> bool {
    match backward_size_at(data) {
        Some(pos) => is_largest_word(data, pos),
        None => false,
    }
}

/// The stream with the backward size 0x3FFFFFFF in the place of 0xFFFFFFFF; all
/// other streams are left as they are.
pub open spec fn tamed(data: Seq<u8>) -> Seq<u8> {
    if footer_overflows(data) {
        data.update(backward_size_at(data)->Some_0 + 3, 0x3F)
    } else {
        data
    }
}

/// An index and a block start at a multiple of four.
proof fn lemma_index_is_aligned(data: Seq<u8>, pos: int, blocks: nat, check: int)
    requires
        pos % 4 == 0,
        check % 4 == 0,
    ensures
        index_from(data, pos, blocks, check) matches Some((start, _)) ==> start % 4 == 0 && start
            >= 0,
    decreases
            if pos < data.len() {
                data.len() - pos
            } else {
                0
            },
{
    if 0 <= pos < data.len() && check >= 0 && data[pos] != 0 {
        let body = pos + 4 * data[pos] + 4;
        if body <= data.len() {
            if let Some(len) = crate::boundary::lzma2_length(data.skip(body)) {
                lemma_index_is_aligned(data, aligned(body + len) + check, blocks + 1, check);
            }
        }
    }
}

/// The backward size of a stream stands at a multiple of four.
pub proof fn backward_size_is_aligned(data: Seq<u8>)
    ensures
        backward_size_at(data) matches Some(pos) ==> pos % 4 == 0,
{
    lemma_index_is_aligned(data, STREAM_HEADER_SIZE as int, 0, check_size(data[7]));
}

/// Finds where a number ends.
fn find_number_end(data: &[u8], from: usize) -> (res: Option<usize>)
    ensures
        match res {
            Some(end) => number_end(data@, from as int, NUMBER_SIZE as nat) == Some(end as int)
                && end <= data@.len(),
            None => number_end(data@, from as int, NUMBER_SIZE as nat) is None,
        },
{
    let mut pos: usize = from;
    let mut left: u32 = NUMBER_SIZE;
    while left > 0 && pos < data.len()
        invariant
            number_end(data@, pos as int, left as nat) == number_end(
                data@,
                from as int,
                NUMBER_SIZE as nat,
            ),
        decreases left,
    {
        if data[pos] < 0x80 {
            return Some(pos + 1);
        }
        pos = pos + 1;
        left = left - 1;
    }
    None
}

/// Finds where `count` numbers end.
fn find_numbers_end(data: &[u8], from: usize, count: usize) -> (res: Option<usize>)
    requires
        from <= data@.len(),
    ensures
        match res {
            Some(end) => numbers_end(data@, from as int, count as nat) == Some(end as int) && end
                <= data@.len(),
            None => numbers_end(data@, from as int, count as nat) is None,
        },
{
    let mut pos: usize = from;
    let mut left: usize = count;
    while left > 0
        invariant
            pos <= data@.len(),
            numbers_end(data@, pos as int, left as nat) == numbers_end(
                data@,
                from as int,
                count as nat,
            ),
        decreases left,
    {
        match find_number_end(data, pos) {
            Some(end) => {
                pos = end;
            },
            None => {
                return None;
            },
        }
        left = left - 1;
    }
    Some(pos)
}

/// How many bytes lie between `n` and the next multiple of four.
fn padding(n: usize) -> (pad: usize)
    ensures
        pad < 4,
        n + pad == aligned(n as int),
{
    (4 - n % 4) % 4
}

/// Finds the index, and counts the blocks before it.
fn find_index(data: &[u8], check: usize) -> (res: Option<(usize, usize)>)
    requires
        check <= 32,
    ensures
        match res {
            Some((start, blocks)) => {
                &&& index_from(data@, STREAM_HEADER_SIZE as int, 0, check as int) == Some(
                    (start as int, blocks as nat),
                )
                &&& start < data@.len()
                &&& 4 * blocks <= start
            },
            None => index_from(data@, STREAM_HEADER_SIZE as int, 0, check as int) is None,
        },
{
    let mut pos: usize = STREAM_HEADER_SIZE;
    let mut blocks: usize = 0;
    while pos < data.len()
        invariant
            check <= 32,
            4 * blocks <= pos,
            index_from(data@, pos as int, blocks as nat, check as int) == index_from(
                data@,
                STREAM_HEADER_SIZE as int,
                0,
                check as int,
            ),
        decreases data.len() - pos,
    {
        if data[pos] == 0 {
            return Some((pos, blocks));
        }
        let header: usize = 4 * (data[pos] as usize) + 4;
        if data.len() - pos < header {
            return None;
        }
        let body: usize = pos + header;
        let rest: &[u8] = &data[body..data.len()];
        assert(rest@ =~= data@.skip(body as int));
        let len: usize = match lzma2_span(rest) {
            Some(len) => len,
            None => {
                return None;
            },
        };
        let end: usize = body + len;
        let gap: usize = padding(end) + check;
        if data.len() - end < gap {
            assert(index_from(data@, end + gap, blocks as nat + 1, check as int) is None);
            return None;
        }
        pos = end + gap;
        blocks = blocks + 1;
    }
    None
}

/// Finds where the decoder reads a backward size of 0xFFFFFFFF.
fn find_overflow(data: &[u8]) -> (res: Option<usize>)
    ensures
        match res {
            Some(pos) => footer_overflows(data@) && backward_size_at(data@) == Some(pos as int),
            None => !footer_overflows(data@),
        },
{
    if data.len() < STREAM_HEADER_SIZE {
        return None;
    }
    let check: usize = match data[7] {
        0 => 0,
        1 => 4,
        4 => 8,
        _ => 32,
    };
    let (start, blocks): (usize, usize) = match find_index(data, check) {
        Some(found) => found,
        None => {
            return None;
        },
    };
    let end: usize = match find_numbers_end(data, start + 1, 1 + 2 * blocks) {
        Some(end) => end,
        None => {
            return None;
        },
    };
    if data.len() - end < padding(end) + 12 {
        return None;
    }
    let pos: usize = end + padding(end) + 8;
    if data[pos] == 0xFF && data[pos + 1] == 0xFF && data[pos + 2] == 0xFF && data[pos + 3]
        == 0xFF {
        Some(pos)
    } else {
        None
    }
}

/// Whether the word 0xFFFFFFFF stands at a multiple of four, which few streams
/// have: the others need not be looked through for their footer.
fn has_largest_word(data: &[u8]) -> (yes: bool)
    ensures
        yes == exists|pos: int| pos % 4 == 0 && #[trigger] is_largest_word(data@, pos),
{
    let mut pos: usize = 0;
    while pos < data.len() && data.len() - pos >= 4
        invariant
            pos % 4 == 0,
            pos <= data@.len(),
            forall|i: int| 0 <= i < pos && i % 4 == 0 ==> !#[trigger] is_largest_word(data@, i),
        decreases data.len() - pos,
    {
        if data[pos] == 0xFF && data[pos + 1] == 0xFF && data[pos + 2] == 0xFF && data[pos + 3]
            == 0xFF {
            assert(is_largest_word(data@, pos as int));
            return true;
        }
        pos = pos + 4;
    }
    false
}

/// Whether the decoder would read a backward size of 0xFFFFFFFF, if it got that
/// far.
pub fn has_overflowing_footer(data: &[u8]) -> (yes: bool)
    ensures
        yes == footer_overflows(data@),
{
    proof {
        backward_size_is_aligned(data@);
    }
    has_largest_word(data) && find_overflow(data).is_some()
}

/// Decodes an xz stream.
pub fn decode_xz(data: &[u8]) -> (res: Result<Vec<u8>, String>)
    ensures
        crate::boundary::decoder_outcome(res) == crate::boundary::xz_decoded(tamed(data@)),
{
    proof {
        backward_size_is_aligned(data@);
    }
    if has_largest_word(data) {
        if let Some(pos) = find_overflow(data) {
            let mut copy: Vec<u8> = slice_to_vec(data);
            copy.set(pos + 3, 0x3F);
            assert(copy@ =~= tamed(data@));
            return xz_decode(&copy);
        }
    }
    xz_decode(data)
}

/// No stream is changed before it is decoded but in one byte: the last of a
/// word 0xFFFFFFFF at a multiple of four, of which 0x3FFFFFFF is made.
pub proof fn at_most_one_byte_is_changed(data: Seq<u8>)
    ensures
        tamed(data) != data ==> exists|pos: int|
            {
                &&& pos % 4 == 0
                &&& 0 <= pos
                &&& pos + 4 <= data.len()
                &&& data.subrange(pos, pos + 4) == seq![0xFFu8, 0xFFu8, 0xFFu8, 0xFFu8]
                &&& tamed(data) == #[trigger] data.update(pos + 3, 0x3Fu8)
            },
        (forall|pos: int|
            0 <= pos && pos + 4 <= data.len() && pos % 4 == 0 ==> #[trigger] data.subrange(
                pos,
                pos + 4,
            ) != seq![0xFFu8, 0xFFu8, 0xFFu8, 0xFFu8]) ==> tamed(data) == data,
{
    backward_size_is_aligned(data);
    if footer_overflows(data) {
        let pos = backward_size_at(data)->Some_0;
        assert(data.subrange(pos, pos + 4) =~= seq![0xFFu8, 0xFFu8, 0xFFu8, 0xFFu8]);
        assert(tamed(data) == data.update(pos + 3, 0x3Fu8));
    }
}

/// Whether a block starts at `start` and what follows it at `next`: the header,
/// whose size its first byte gives, LZMA2 data, null to three bytes up to a
/// multiple of four, and the check.
pub open spec fn is_block(data: Seq<u8>, start: int, next: int, check: int) -> bool {
    let body = start + 4 * data[start] + 4;
    &&& 0 <= start < data.len()
    &&& data[start] != 0
    &&& body <= data.len()
    &&& crate::boundary::lzma2_length(data.skip(body)) matches Some(len) && body + len <= next
        - check < body + len + 4
    &&& (next - check) % 4 == 0
}

/// Whether blocks stand one behind the other from the end of the stream header
/// on, and a null byte behind the last of them.
pub open spec fn are_blocks(data: Seq<u8>, starts: Seq<int>, check: int) -> bool {
    &&& starts.len() > 0
    &&& starts[0] == 12
    &&& forall|j: int, k: int|
        0 <= j && j + 1 == k && k < starts.len() ==> #[trigger] is_block(
            data,
            starts[j],
            starts[k],
            check,
        )
    &&& 12 <= starts.last() < data.len()
    &&& data[starts.last()] == 0
}

/// Whether numbers of one to nine bytes stand one behind the other: all bytes
/// of a number but the last are 0x80 or more.
pub open spec fn are_numbers(data: Seq<u8>, ends: Seq<int>) -> bool {
    &&& ends.len() > 0
    &&& 0 <= ends[0]
    &&& ends.last() <= data.len()
    &&& forall|j: int, k: int|
        0 <= j && j + 1 == k && k < ends.len() ==> #[trigger] is_number(data, ends[j], ends[k])
}

/// Whether a number of one to nine bytes stands between two positions.
pub open spec fn is_number(data: Seq<u8>, from: int, to: int) -> bool {
    &&& 0 <= from < to <= from + 9
    &&& to <= data.len()
    &&& data[to - 1] < 0x80
    &&& forall|i: int| from <= i < to - 1 ==> data[i] >= 0x80
}

/// The walk along blocks comes to each of them.
proof fn lemma_blocks(data: Seq<u8>, starts: Seq<int>, check: int, k: int)
    requires
        are_blocks(data, starts, check),
        check >= 0,
        0 <= k < starts.len(),
    ensures
        index_from(data, 12, 0, check) == index_from(data, starts[k], k as nat, check),
    decreases k,
{
    if k > 0 {
        lemma_blocks(data, starts, check, k - 1);
        assert(is_block(data, starts[k - 1], starts[k], check));
        let body = starts[k - 1] + 4 * data[starts[k - 1]] + 4;
        let len = crate::boundary::lzma2_length(data.skip(body))->Some_0;
        assert(aligned(body + len) + check == starts[k]);
    }
}

/// A number ends where it stands to end.
proof fn lemma_number(data: Seq<u8>, from: int, to: int, left: nat)
    requires
        0 <= from < to <= from + left,
        to <= data.len(),
        data[to - 1] < 0x80,
        forall|i: int| from <= i < to - 1 ==> data[i] >= 0x80,
    ensures
        number_end(data, from, left) == Some(to),
    decreases left,
{
    if from < to - 1 {
        lemma_number(data, from + 1, to, (left - 1) as nat);
    }
}

/// The walk along numbers comes to the end of the last.
proof fn lemma_numbers(data: Seq<u8>, ends: Seq<int>, k: int)
    requires
        are_numbers(data, ends),
        0 <= k < ends.len(),
    ensures
        numbers_end(data, ends[k], (ends.len() - 1 - k) as nat) == Some(ends.last()),
        ends[k] <= ends.last(),
    decreases ends.len() - k,
{
    if k < ends.len() - 1 {
        assert(is_number(data, ends[k], ends[k + 1]));
        lemma_number(data, ends[k], ends[k + 1], 9);
        lemma_numbers(data, ends, k + 1);
    }
}

/// The index stands behind the last block.
proof fn lemma_index_of_blocks(data: Seq<u8>, starts: Seq<int>, check: int)
    requires
        are_blocks(data, starts, check),
        check >= 0,
    ensures
        index_from(data, 12, 0, check) == Some((starts.last(), (starts.len() - 1) as nat)),
{
    lemma_blocks(data, starts, check, starts.len() - 1);
}

/// The last number ends behind all of them.
proof fn lemma_end_of_numbers(data: Seq<u8>, ends: Seq<int>)
    requires
        are_numbers(data, ends),
    ensures
        numbers_end(data, ends[0], (ends.len() - 1) as nat) == Some(ends.last()),
        0 <= ends.last(),
{
    lemma_numbers(data, ends, 0);
}

/// A stream with this index has its backward size changed.
proof fn lemma_changed(data: Seq<u8>, check: int, start: int, blocks: nat, end: int, pos: int)
    requires
        data.len() >= 12,
        check == check_size(data[7]),
        index_from(data, 12, 0, check) == Some((start, blocks)),
        numbers_end(data, start + 1, 1 + 2 * blocks) == Some(end),
        pos % 4 == 0,
        0 <= end,
        end + 8 <= pos < end + 12,
        pos + 4 <= data.len(),
        data.subrange(pos, pos + 4) == seq![0xFFu8, 0xFFu8, 0xFFu8, 0xFFu8],
    ensures
        footer_overflows(data),
        tamed(data) == data.update(pos + 3, 0x3Fu8),
{
    let word = data.subrange(pos, pos + 4);
    assert(word[0] == data[pos] && word[1] == data[pos + 1] && word[2] == data[pos + 2] && word[3]
        == data[pos + 3]);
    assert(aligned(end) + 8 == pos);
}

/// In every stream with blocks, an index of one number and two more for each
/// block, and the word 0xFFFFFFFF for a backward size, whatever the blocks and
/// the numbers are, that word and nothing else is changed before the stream is
/// decoded; the check of a block takes 0, 4, 8 or 32 bytes, as byte 7 says.
pub proof fn largest_backward_size_is_always_changed(
    data: Seq<u8>,
    starts: Seq<int>,
    ends: Seq<int>,
    check: int,
    pos: int,
)
    requires
        data.len() >= 12,
        data[7] == 0 && check == 0 || data[7] == 1 && check == 4 || data[7] == 4 && check == 8
            || data[7] == 10 && check == 32,
        are_blocks(data, starts, check),
        are_numbers(data, ends),
        ends[0] == starts.last() + 1,
        ends.len() - 1 == 1 + 2 * (starts.len() - 1),
        pos % 4 == 0,
        ends.last() + 8 <= pos < ends.last() + 12,
        pos + 4 <= data.len(),
        data.subrange(pos, pos + 4) == seq![0xFFu8, 0xFFu8, 0xFFu8, 0xFFu8],
    ensures
        footer_overflows(data),
        tamed(data) == data.update(pos + 3, 0x3Fu8),
{
    lemma_index_of_blocks(data, starts, check);
    lemma_end_of_numbers(data, ends);
    lemma_changed(data, check, starts.last(), (starts.len() - 1) as nat, ends.last(), pos);
}

} // verus!
