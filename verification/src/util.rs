//! Bounded little-endian reads and null-terminated strings.
use vstd::prelude::*;
use vstd::string::*;
use vstd::utf8::*;

use crate::error::{Error, ErrorView};

verus! {

/// The number that `bytes` spell, least significant byte first.
pub open spec fn le_value(bytes: Seq<u8>) -> nat
    decreases bytes.len(),
{
    if bytes.len() == 0 {
        0
    } else {
        bytes[0] as nat + 256 * le_value(bytes.drop_first())
    }
}

/// The last `width` bytes of `n`, least significant byte first.
pub open spec fn le_bytes(n: nat, width: nat) -> Seq<u8>
    decreases width,
{
    if width == 0 {
        Seq::empty()
    } else {
        seq![(n % 256) as u8] + le_bytes(n / 256, (width - 1) as nat)
    }
}

/// 256 to the power `width`: how many numbers `width` bytes can spell.
pub open spec fn le_limit(width: nat) -> nat
    decreases width,
{
    if width == 0 {
        1
    } else {
        256 * le_limit((width - 1) as nat)
    }
}

/// The position `by` bytes after `base`. Positions stop at the largest
/// address, where no buffer has a byte.
pub open spec fn position_after(base: int, by: int) -> int {
    if base + by <= usize::MAX {
        base + by
    } else {
        usize::MAX as int
    }
}

/// The error of a read at `off` that would leave the buffer.
pub open spec fn out_of_bounds(off: int, field: Seq<char>) -> ErrorView {
    ErrorView::OffsetOutOfBounds { offset: off, field }
}

/// Reading a `width`-byte little-endian number at `off`.
pub open spec fn read_le(buf: Seq<u8>, off: int, width: nat, field: Seq<char>) -> Result<
    nat,
    ErrorView,
> {
    if off + width <= buf.len() {
        Ok(le_value(buf.subrange(off, off + width)))
    } else {
        Err(out_of_bounds(off, field))
    }
}

/// The first position at or after `off` that holds a null byte; the length of
/// the buffer if there is none.
pub open spec fn first_nul(buf: Seq<u8>, off: int) -> int
    decreases buf.len() - off,
{
    if off >= buf.len() {
        buf.len() as int
    } else if buf[off] == 0 {
        off
    } else {
        first_nul(buf, off + 1)
    }
}

/// The first null byte stands where it is said to stand, and no null byte
/// comes before it.
pub proof fn lemma_first_nul(buf: Seq<u8>, off: int)
    requires
        off <= buf.len(),
    ensures
        off <= first_nul(buf, off) <= buf.len(),
        first_nul(buf, off) < buf.len() ==> buf[first_nul(buf, off)] == 0,
        forall|i: int| off <= i < first_nul(buf, off) ==> buf[i] != 0,
    decreases buf.len() - off,
{
    if off < buf.len() && buf[off] != 0 {
        lemma_first_nul(buf, off + 1);
    }
}

/// Reading a null-terminated UTF-8 string at `off`: its characters, and the
/// number of bytes it takes with its null byte.
pub open spec fn cstring_at(buf: Seq<u8>, off: int) -> Result<(Seq<char>, int), ErrorView> {
    let nul = first_nul(buf, off);
    if off > buf.len() {
        Err(out_of_bounds(off, "cstring"@))
    } else if nul == buf.len() {
        Err(out_of_bounds(off, "cstring (no null terminator)"@))
    } else if valid_utf8(buf.subrange(off, nul)) {
        Ok((decode_utf8(buf.subrange(off, nul)), nul - off + 1))
    } else {
        Err(ErrorView::InvalidUtf8(off))
    }
}

/// The position `by` bytes after `base`.
pub fn position(base: u64, by: u64) -> (pos: usize)
    ensures
        pos == position_after(base as int, by as int),
{
    if by <= u64::MAX - base && base + by <= usize::MAX as u64 {
        (base + by) as usize
    } else {
        usize::MAX
    }
}

/// The `len` bytes of `buf` at `off`.
fn slice<'a>(buf: &'a [u8], off: usize, len: usize, field: &'static str) -> (res: Result<
    &'a [u8],
    Error,
>)
    ensures
        match res {
            Ok(part) => off + len <= buf@.len() && part@ == buf@.subrange(
                off as int,
                off + len,
            ),
            Err(error) => off + len > buf@.len() && error@ == out_of_bounds(off as int, field@),
        },
{
    if off <= buf.len() && len <= buf.len() - off {
        Ok(&buf[off..off + len])
    } else {
        Err(Error::OffsetOutOfBounds { offset: off as u64, field })
    }
}

/// Reads a little-endian `u16` at `off`.
pub fn read_u16_le(buf: &[u8], off: usize, field: &'static str) -> (res: Result<u16, Error>)
    ensures
        match res {
            Ok(n) => read_le(buf@, off as int, 2, field@) == Ok::<nat, ErrorView>(n as nat),
            Err(error) => read_le(buf@, off as int, 2, field@) == Err::<nat, ErrorView>(error@),
        },
{
    let s: &[u8] = match slice(buf, off, 2, field) {
        Ok(s) => s,
        Err(error) => {
            return Err(error);
        },
    };
    proof {
        reveal_with_fuel(le_value, 3);
    }
    Ok(s[0] as u16 + s[1] as u16 * 0x100)
}

/// Reads a little-endian `u32` at `off`.
pub fn read_u32_le(buf: &[u8], off: usize, field: &'static str) -> (res: Result<u32, Error>)
    ensures
        match res {
            Ok(n) => read_le(buf@, off as int, 4, field@) == Ok::<nat, ErrorView>(n as nat),
            Err(error) => read_le(buf@, off as int, 4, field@) == Err::<nat, ErrorView>(error@),
        },
{
    let s: &[u8] = match slice(buf, off, 4, field) {
        Ok(s) => s,
        Err(error) => {
            return Err(error);
        },
    };
    proof {
        reveal_with_fuel(le_value, 5);
    }
    Ok(s[0] as u32 + s[1] as u32 * 0x100 + s[2] as u32 * 0x1_0000 + s[3] as u32 * 0x100_0000)
}

/// Reads a little-endian `u64` at `off`.
pub fn read_u64_le(buf: &[u8], off: usize, field: &'static str) -> (res: Result<u64, Error>)
    ensures
        match res {
            Ok(n) => read_le(buf@, off as int, 8, field@) == Ok::<nat, ErrorView>(n as nat),
            Err(error) => read_le(buf@, off as int, 8, field@) == Err::<nat, ErrorView>(error@),
        },
{
    let s: &[u8] = match slice(buf, off, 8, field) {
        Ok(s) => s,
        Err(error) => {
            return Err(error);
        },
    };
    proof {
        reveal_with_fuel(le_value, 9);
    }
    Ok(
        s[0] as u64 + s[1] as u64 * 0x100 + s[2] as u64 * 0x1_0000 + s[3] as u64 * 0x100_0000
            + s[4] as u64 * 0x1_0000_0000 + s[5] as u64 * 0x100_0000_0000 + s[6] as u64
            * 0x1_0000_0000_0000 + s[7] as u64 * 0x100_0000_0000_0000,
    )
}

/// Reads a null-terminated UTF-8 string starting at `off`. Returns the decoded
/// string (without the null byte) and the total number of bytes consumed
/// (with the null byte).
pub fn read_cstring(buf: &[u8], off: usize) -> (res: Result<(String, usize), Error>)
    ensures
        match res {
            Ok((text, consumed)) => cstring_at(buf@, off as int) == Ok::<
                (Seq<char>, int),
                ErrorView,
            >((text@, consumed as int)),
            Err(error) => cstring_at(buf@, off as int) == Err::<(Seq<char>, int), ErrorView>(
                error@,
            ),
        },
{
    if off > buf.len() {
        return Err(Error::OffsetOutOfBounds { offset: off as u64, field: "cstring" });
    }
    let mut nul: usize = off;
    while nul < buf.len() && buf[nul] != 0
        invariant
            off <= nul <= buf@.len(),
            first_nul(buf@, off as int) == first_nul(buf@, nul as int),
        decreases buf@.len() - nul,
    {
        nul = nul + 1;
    }
    if nul == buf.len() {
        return Err(
            Error::OffsetOutOfBounds { offset: off as u64, field: "cstring (no null terminator)" },
        );
    }
    match core::str::from_utf8(&buf[off..nul]) {
        Ok(text) => {
            proof {
                encode_utf8_decode_utf8(text@);
            }
            Ok((text.to_owned(), nul - off + 1))
        },
        Err(_) => Err(Error::InvalidUtf8(off as u64)),
    }
}

/// `width` bytes spell numbers below [`le_limit`], and the bytes of a number
/// are as many as were asked for.
pub proof fn le_value_is_bounded(bytes: Seq<u8>, n: nat, width: nat)
    ensures
        le_value(bytes) < le_limit(bytes.len()),
        le_bytes(n, width).len() == width,
    decreases bytes.len() + width,
{
    if bytes.len() > 0 {
        le_value_is_bounded(bytes.drop_first(), n, 0);
    }
    if width > 0 {
        le_value_is_bounded(Seq::empty(), n / 256, (width - 1) as nat);
    }
}

/// Writing a number in `width` bytes and reading it gives the number back, if
/// it fits.
pub proof fn le_value_of_le_bytes(n: nat, width: nat)
    requires
        n < le_limit(width),
    ensures
        le_value(le_bytes(n, width)) == n,
    decreases width,
{
    if width > 0 {
        let rest = le_bytes(n / 256, (width - 1) as nat);
        le_value_of_le_bytes(n / 256, (width - 1) as nat);
        assert(le_bytes(n, width).drop_first() =~= rest);
    }
}

/// Reading a number and writing it in as many bytes gives the bytes back.
pub proof fn le_bytes_of_le_value(bytes: Seq<u8>)
    ensures
        le_bytes(le_value(bytes), bytes.len()) == bytes,
    decreases bytes.len(),
{
    if bytes.len() > 0 {
        let n = le_value(bytes);
        le_bytes_of_le_value(bytes.drop_first());
        assert(n / 256 == le_value(bytes.drop_first()));
        assert(n % 256 == bytes[0]);
        assert(seq![bytes[0]] + bytes.drop_first() =~= bytes);
    } else {
        assert(bytes =~= Seq::empty());
    }
}

/// How many numbers 2, 4 and 8 bytes can spell.
pub proof fn le_limits()
    ensures
        le_limit(2) == 0x1_0000,
        le_limit(4) == 0x1_0000_0000,
        le_limit(8) == 0x1_0000_0000_0000_0000,
{
    reveal_with_fuel(le_limit, 9);
}

/// A string as it is stored: its UTF-8 bytes and a null byte.
pub open spec fn cstring_bytes(text: Seq<char>) -> Seq<u8> {
    encode_utf8(text).push(0)
}

/// The bytes of a string without null characters have no null byte.
proof fn lemma_no_null_bytes(text: Seq<char>)
    requires
        !text.contains('\0'),
    ensures
        forall|i: int| 0 <= i < encode_utf8(text).len() ==> encode_utf8(text)[i] != 0,
    decreases text.len(),
{
    if text.len() > 0 {
        let scalar = text[0] as u32;
        assert(text[0] != '\0');
        lemma_nonzero_char(text[0]);
        assert forall|i: int| 0 <= i < encode_scalar(scalar).len() implies encode_scalar(scalar)[i]
            != 0 by {
            assert(0x80u8 | (scalar & 0x3F) as u8 != 0 && 0x80u8 | ((scalar >> 6) & 0x3F) as u8 != 0
                && 0x80u8 | ((scalar >> 12) & 0x3F) as u8 != 0 && 0xC0u8 | ((scalar >> 6)
                & 0x1F) as u8 != 0 && 0xE0u8 | ((scalar >> 12) & 0x0F) as u8 != 0 && 0xF0u8 | ((
            scalar >> 18) & 0x7) as u8 != 0) by (bit_vector);
            assert(0 < scalar < 0x80 ==> (scalar & 0x7F) as u8 != 0) by (bit_vector);
        }
        assert forall|c: char| text.drop_first().contains(c) implies text.contains(c) by {
            let i = text.drop_first().index_of(c);
            assert(text[i + 1] == c);
        }
        lemma_no_null_bytes(text.drop_first());
        let first = encode_scalar(scalar);
        let rest = encode_utf8(text.drop_first());
        assert(encode_utf8(text) == first + rest);
        assert forall|i: int| 0 <= i < encode_utf8(text).len() implies encode_utf8(text)[i] != 0 by {
            if i >= first.len() {
                assert(encode_utf8(text)[i] == rest[i - first.len()]);
            }
        }
    }
}

proof fn lemma_nonzero_char(c: char)
    requires
        c != '\0',
    ensures
        c as u32 > 0,
{
}

/// Writing a string without null characters and reading it gives it back,
/// whatever stands before and after.
pub proof fn cstring_is_read_back(before: Seq<u8>, text: Seq<char>, after: Seq<u8>)
    requires
        !text.contains('\0'),
    ensures
        cstring_at(before + cstring_bytes(text) + after, before.len() as int) == Ok::<
            (Seq<char>, int),
            ErrorView,
        >((text, cstring_bytes(text).len() as int)),
{
    let buf = before + cstring_bytes(text) + after;
    let bytes = encode_utf8(text);
    let off = before.len() as int;
    lemma_no_null_bytes(text);
    lemma_first_nul(buf, off);
    assert(buf[off + bytes.len()] == 0);
    assert(forall|i: int| off <= i < off + bytes.len() ==> buf[i] == bytes[i - off]);
    assert(first_nul(buf, off) == off + bytes.len());
    assert(buf.subrange(off, off + bytes.len()) =~= bytes);
    encode_utf8_valid_utf8(text);
    encode_utf8_decode_utf8(text);
}

/// Writing a number and reading it gives it back, whatever stands before and
/// after, if it fits.
pub proof fn number_is_read_back(
    before: Seq<u8>,
    n: nat,
    width: nat,
    after: Seq<u8>,
    field: Seq<char>,
)
    requires
        n < le_limit(width),
    ensures
        read_le(before + le_bytes(n, width) + after, before.len() as int, width, field) == Ok::<
            nat,
            ErrorView,
        >(n),
{
    let buf = before + le_bytes(n, width) + after;
    le_value_is_bounded(Seq::empty(), n, width);
    le_value_of_le_bytes(n, width);
    assert(buf.subrange(before.len() as int, (before.len() + width) as int) =~= le_bytes(n, width));
}

/// Of the 2, 4 or 8 bytes of a number, the first counts ones, and each other
/// counts 256 times what the one before it does.
pub proof fn numbers_are_little_endian(bytes: Seq<u8>)
    ensures
        bytes.len() == 2 ==> le_value(bytes) == bytes[0] + 0x100 * bytes[1],
        bytes.len() == 4 ==> le_value(bytes) == bytes[0] + 0x100 * bytes[1] + 0x1_0000 * bytes[2]
            + 0x100_0000 * bytes[3],
        bytes.len() == 8 ==> le_value(bytes) == bytes[0] + 0x100 * bytes[1] + 0x1_0000 * bytes[2]
            + 0x100_0000 * bytes[3] + 0x1_0000_0000 * bytes[4] + 0x100_0000_0000 * bytes[5]
            + 0x1_0000_0000_0000 * bytes[6] + 0x100_0000_0000_0000 * bytes[7],
{
    reveal_with_fuel(le_value, 9);
}

/// A number is read exactly if all its bytes are inside the buffer, and it is
/// the one whose bytes stand there. Otherwise the error names the place and the
/// field.
pub proof fn number_read_is_the_one_that_stands_there(
    buf: Seq<u8>,
    off: int,
    width: nat,
    field: Seq<char>,
)
    requires
        0 <= off,
    ensures
        match read_le(buf, off, width, field) {
            Ok(n) => off + width <= buf.len() && buf.subrange(off, off + width) == le_bytes(
                n,
                width,
            ) && n < le_limit(width),
            Err(error) => off + width > buf.len() && error == (ErrorView::OffsetOutOfBounds {
                offset: off,
                field,
            }),
        },
{
    if off + width <= buf.len() {
        le_bytes_of_le_value(buf.subrange(off, off + width));
        le_value_is_bounded(buf.subrange(off, off + width), 0, 0);
    }
}

/// A position is so many bytes behind another, as far as bytes can be
/// addressed, and never before the first that cannot be.
pub proof fn position_is_a_sum(base: int, by: int)
    ensures
        base + by <= usize::MAX ==> position_after(base, by) == base + by,
        base + by > usize::MAX ==> position_after(base, by) == usize::MAX,
{
}

/// A string is read exactly if its bytes stand in the buffer and the first null
/// byte behind them follows; so many bytes and one are taken.
pub proof fn string_read_is_the_one_that_stands_there(
    buf: Seq<u8>,
    off: int,
    text: Seq<char>,
    consumed: int,
)
    requires
        0 <= off,
    ensures
        cstring_at(buf, off) == Ok::<(Seq<char>, int), ErrorView>((text, consumed)) <==> {
            &&& 1 <= consumed
            &&& off + consumed <= buf.len()
            &&& buf[off + consumed - 1] == 0
            &&& buf.subrange(off, off + consumed - 1) == encode_utf8(text)
            &&& forall|i: int| off <= i < off + consumed - 1 ==> buf[i] != 0
        },
{
    if off <= buf.len() {
        lemma_first_nul(buf, off);
        let nul = first_nul(buf, off);
        encode_utf8_valid_utf8(text);
        encode_utf8_decode_utf8(text);
        if nul < buf.len() && valid_utf8(buf.subrange(off, nul)) {
            decode_utf8_encode_utf8(buf.subrange(off, nul));
        }
        if 1 <= consumed && off + consumed <= buf.len() && buf[off + consumed - 1] == 0 && (forall|
            i: int,
        | off <= i < off + consumed - 1 ==> buf[i] != 0) {
            assert(nul == off + consumed - 1);
        }
    }
}

/// A string that is not read has a reason: it would start behind the buffer, no
/// null byte ends it, or its bytes spell no text.
pub proof fn string_error_has_a_reason(buf: Seq<u8>, off: int)
    requires
        0 <= off,
    ensures
        off > buf.len() ==> cstring_at(buf, off) == Err::<(Seq<char>, int), ErrorView>(
            ErrorView::OffsetOutOfBounds { offset: off, field: "cstring"@ },
        ),
        off <= buf.len() && (forall|i: int| off <= i < buf.len() ==> buf[i] != 0) ==> cstring_at(
            buf,
            off,
        ) == Err::<(Seq<char>, int), ErrorView>(
            ErrorView::OffsetOutOfBounds { offset: off, field: "cstring (no null terminator)"@ },
        ),
        forall|end: int|
            off <= end < buf.len() && #[trigger] buf[end] == 0 && (forall|i: int|
                off <= i < end ==> buf[i] != 0) && !valid_utf8(buf.subrange(off, end))
                ==> cstring_at(buf, off) == Err::<(Seq<char>, int), ErrorView>(
                ErrorView::InvalidUtf8(off),
            ),
{
    if off <= buf.len() {
        lemma_first_nul(buf, off);
    }
}

} // verus!
