//! The path, title and cluster pointer lists.
use vstd::prelude::*;

use crate::error::{Error, ErrorView};
use crate::util::{position, read_u32_le, read_u64_le};

verus! {

/// Reading pointer `idx` of the path pointer list at `pos`: the file offset of
/// a directory entry.
pub open spec fn path_ptr_at(buf: Seq<u8>, pos: int, idx: int) -> Result<nat, ErrorView> {
    crate::util::read_le(buf, crate::util::position_after(pos, 8 * idx), 8, "path_ptr"@)
}

/// Reading pointer `idx` of the title pointer list at `pos`: an entry index.
pub open spec fn title_ptr_at(buf: Seq<u8>, pos: int, idx: int) -> Result<nat, ErrorView> {
    crate::util::read_le(buf, crate::util::position_after(pos, 4 * idx), 4, "title_ptr"@)
}

/// Reading pointer `idx` of the cluster pointer list at `pos`: the file offset
/// of a cluster.
pub open spec fn cluster_ptr_at(buf: Seq<u8>, pos: int, idx: int) -> Result<nat, ErrorView> {
    crate::util::read_le(buf, crate::util::position_after(pos, 8 * idx), 8, "cluster_ptr"@)
}

/// Reads the file offset of the directory entry `idx` from the path pointer
/// list. Each pointer is 8 bytes; the list has `entry_count` entries.
pub fn path_ptr(buf: &[u8], path_ptr_pos: u64, idx: u32) -> (res: Result<u64, Error>)
    ensures
        match res {
            Ok(off) => path_ptr_at(buf@, path_ptr_pos as int, idx as int) == Ok::<nat, ErrorView>(
                off as nat,
            ),
            Err(error) => path_ptr_at(buf@, path_ptr_pos as int, idx as int) == Err::<
                nat,
                ErrorView,
            >(error@),
        },
{
    read_u64_le(buf, position(path_ptr_pos, idx as u64 * 8), "path_ptr")
}

/// Reads the entry index stored at rank `idx` of the title pointer list. Each
/// pointer is 4 bytes; resolve the returned index through [`path_ptr`] to get
/// a file offset.
pub fn title_ptr(buf: &[u8], title_ptr_pos: u64, idx: u32) -> (res: Result<u32, Error>)
    ensures
        match res {
            Ok(entry) => title_ptr_at(buf@, title_ptr_pos as int, idx as int) == Ok::<
                nat,
                ErrorView,
            >(entry as nat),
            Err(error) => title_ptr_at(buf@, title_ptr_pos as int, idx as int) == Err::<
                nat,
                ErrorView,
            >(error@),
        },
{
    read_u32_le(buf, position(title_ptr_pos, idx as u64 * 4), "title_ptr")
}

/// Reads the file offset of cluster `idx` from the cluster pointer list. Each
/// pointer is 8 bytes; the list has `cluster_count` entries.
pub fn cluster_ptr(buf: &[u8], cluster_ptr_pos: u64, idx: u32) -> (res: Result<u64, Error>)
    ensures
        match res {
            Ok(off) => cluster_ptr_at(buf@, cluster_ptr_pos as int, idx as int) == Ok::<
                nat,
                ErrorView,
            >(off as nat),
            Err(error) => cluster_ptr_at(buf@, cluster_ptr_pos as int, idx as int) == Err::<
                nat,
                ErrorView,
            >(error@),
        },
{
    read_u64_le(buf, position(cluster_ptr_pos, idx as u64 * 8), "cluster_ptr")
}

/// Pointer `idx` of a path pointer list is the number in the eight bytes that
/// stand behind `8 * idx` others from the start of the list, if they are all in
/// the file.
pub proof fn path_pointers_have_eight_bytes(buf: Seq<u8>, pos: int, idx: int)
    requires
        0 <= pos,
        0 <= idx,
        buf.len() <= usize::MAX,
    ensures
        match path_ptr_at(buf, pos, idx) {
            Ok(offset) => {
                &&& pos + 8 * idx + 8 <= buf.len()
                &&& buf.subrange(pos + 8 * idx, pos + 8 * idx + 8) == crate::util::le_bytes(
                    offset,
                    8,
                )
                &&& offset <= u64::MAX
            },
            Err(_) => pos + 8 * idx + 8 > buf.len(),
        },
{
    lemma_pointer(buf, pos + 8 * idx, 8, "path_ptr"@);
}

/// Pointer `rank` of a title pointer list is the number in the four bytes that
/// stand behind `4 * rank` others from the start of the list, if they are all
/// in the file.
pub proof fn title_pointers_have_four_bytes(buf: Seq<u8>, pos: int, rank: int)
    requires
        0 <= pos,
        0 <= rank,
        buf.len() <= usize::MAX,
    ensures
        match title_ptr_at(buf, pos, rank) {
            Ok(idx) => {
                &&& pos + 4 * rank + 4 <= buf.len()
                &&& buf.subrange(pos + 4 * rank, pos + 4 * rank + 4) == crate::util::le_bytes(
                    idx,
                    4,
                )
                &&& idx <= u32::MAX
            },
            Err(_) => pos + 4 * rank + 4 > buf.len(),
        },
{
    lemma_pointer(buf, pos + 4 * rank, 4, "title_ptr"@);
}

/// Pointer `number` of a cluster pointer list is the number in the eight bytes
/// that stand behind `8 * number` others from the start of the list, if they
/// are all in the file.
pub proof fn cluster_pointers_have_eight_bytes(buf: Seq<u8>, pos: int, number: int)
    requires
        0 <= pos,
        0 <= number,
        buf.len() <= usize::MAX,
    ensures
        match cluster_ptr_at(buf, pos, number) {
            Ok(offset) => {
                &&& pos + 8 * number + 8 <= buf.len()
                &&& buf.subrange(pos + 8 * number, pos + 8 * number + 8) == crate::util::le_bytes(
                    offset,
                    8,
                )
                &&& offset <= u64::MAX
            },
            Err(_) => pos + 8 * number + 8 > buf.len(),
        },
{
    lemma_pointer(buf, pos + 8 * number, 8, "cluster_ptr"@);
}

/// A pointer that is read is the one whose bytes stand there.
proof fn lemma_pointer(buf: Seq<u8>, off: int, width: nat, field: Seq<char>)
    requires
        0 <= off,
        width == 4 || width == 8,
        buf.len() <= usize::MAX,
    ensures
        match crate::util::read_le(buf, crate::util::position_after(off, 0), width, field) {
            Ok(n) => off + width <= buf.len() && buf.subrange(off, off + width)
                == crate::util::le_bytes(n, width) && n < crate::util::le_limit(width),
            Err(_) => off + width > buf.len(),
        },
        crate::util::le_limit(4) == 0x1_0000_0000,
        crate::util::le_limit(8) == 0x1_0000_0000_0000_0000,
{
    crate::util::le_limits();
    crate::util::number_read_is_the_one_that_stands_there(
        buf,
        crate::util::position_after(off, 0),
        width,
        field,
    );
}

} // verus!
