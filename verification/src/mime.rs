//! The list of MIME types after the header.
use vstd::prelude::*;

use crate::error::{outcome, Error, ErrorView};
use crate::util::{position, read_cstring};

verus! {

/// What parsing a MIME type list at `off` gives: the strings up to the first
/// empty one.
pub open spec fn mime_table_at(buf: Seq<u8>, off: int) -> Result<Seq<Seq<char>>, ErrorView>
    decreases buf.len() - off,
{
    match crate::util::cstring_at(buf, off) {
        Err(error) => Err(error),
        Ok((text, consumed)) => if text.len() == 0 {
            Ok(Seq::empty())
        } else {
            proof {
                crate::util::lemma_first_nul(buf, off);
            }
            match mime_table_at(buf, off + consumed) {
                Err(error) => Err(error),
                Ok(rest) => Ok(seq![text] + rest),
            }
        },
    }
}

/// Parses the MIME type list starting at `offset`. The list is a sequence of
/// null-terminated UTF-8 strings terminated by a lone null (empty string).
pub fn parse_mime_table(buf: &[u8], offset: u64) -> (res: Result<Vec<String>, Error>)
    ensures
        outcome(res) == mime_table_at(buf@, crate::util::position_after(offset as int, 0)),
{
    let mut cursor: usize = position(offset, 0);
    let ghost start = cursor as int;
    let mut types: Vec<String> = Vec::new();
    assert(types.deep_view() + Seq::<Seq<char>>::empty() =~= Seq::<Seq<char>>::empty());
    loop
        invariant
            start == crate::util::position_after(offset as int, 0),
            match mime_table_at(buf@, cursor as int) {
                Err(error) => mime_table_at(buf@, start) == Err::<Seq<Seq<char>>, ErrorView>(error),
                Ok(rest) => mime_table_at(buf@, start) == Ok::<Seq<Seq<char>>, ErrorView>(
                    types.deep_view() + rest,
                ),
            },
        decreases buf@.len() - cursor,
    {
        let (text, consumed): (String, usize) = match read_cstring(buf, cursor) {
            Ok(pair) => pair,
            Err(error) => {
                return Err(error);
            },
        };
        proof {
            crate::util::lemma_first_nul(buf@, cursor as int);
            assert(buf@.len() == buf.len());
        }
        cursor = cursor + consumed;
        if text.as_str().is_empty() {
            assert(types.deep_view() + Seq::<Seq<char>>::empty() =~= types.deep_view());
            return Ok(types);
        }
        let ghost before = types.deep_view();
        types.push(text);
        proof {
            assert(types.deep_view() =~= before.push(text@));
            if let Ok(rest) = mime_table_at(buf@, cursor as int) {
                assert(before + (seq![text@] + rest) =~= types.deep_view() + rest);
            }
        }
    }
}

/// A MIME type list as it is stored: each string, and an empty one at the end.
pub open spec fn mime_table_bytes(types: Seq<Seq<char>>) -> Seq<u8>
    decreases types.len(),
{
    if types.len() == 0 {
        seq![0]
    } else {
        crate::util::cstring_bytes(types[0]) + mime_table_bytes(types.drop_first())
    }
}

/// Writing a MIME type list and parsing it gives the list back, whatever
/// stands before and after, if no type is empty or has a null character.
pub proof fn mime_table_is_read_back(before: Seq<u8>, types: Seq<Seq<char>>, after: Seq<u8>)
    requires
        forall|i: int|
            0 <= i < types.len() ==> #[trigger] types[i].len() > 0 && !types[i].contains('\0'),
    ensures
        mime_table_at(before + mime_table_bytes(types) + after, before.len() as int) == Ok::<
            Seq<Seq<char>>,
            ErrorView,
        >(types),
    decreases types.len(),
{
    let buf = before + mime_table_bytes(types) + after;
    if types.len() == 0 {
        let none = Seq::<char>::empty();
        assert(crate::util::cstring_bytes(none) =~= seq![0u8]);
        crate::util::cstring_is_read_back(before, none, after);
        assert(types =~= Seq::empty());
    } else {
        let text = types[0];
        let first = crate::util::cstring_bytes(text);
        let rest = types.drop_first();
        assert(buf =~= before + first + (mime_table_bytes(rest) + after));
        crate::util::cstring_is_read_back(before, text, mime_table_bytes(rest) + after);
        assert(buf =~= (before + first) + mime_table_bytes(rest) + after);
        mime_table_is_read_back(before + first, rest, after);
        assert(seq![text] + rest =~= types);
    }
}

/// No MIME type of a parsed list is empty.
pub proof fn mime_types_are_not_empty(buf: Seq<u8>, off: int)
    requires
        mime_table_at(buf, off) is Ok,
    ensures
        forall|i: int|
            0 <= i < (mime_table_at(buf, off)->Ok_0).len() ==> #[trigger] (mime_table_at(
                buf,
                off,
            )->Ok_0)[i].len() > 0,
    decreases buf.len() - off,
{
    if let Ok((text, consumed)) = crate::util::cstring_at(buf, off) {
        if text.len() > 0 {
            crate::util::lemma_first_nul(buf, off);
            mime_types_are_not_empty(buf, off + consumed);
        }
    }
}

/// The types of a parsed list are those whose bytes stand in the file, in that
/// order and without one left out, up to the empty string that ends the list.
pub proof fn mime_types_are_those_that_stand_there(buf: Seq<u8>, off: int)
    requires
        0 <= off,
    ensures
        mime_table_at(buf, off) matches Ok(types) ==> {
            let len = mime_table_bytes(types).len();
            &&& off + len <= buf.len()
            &&& buf.subrange(off, off + len) == mime_table_bytes(types)
        },
    decreases buf.len() - off,
{
    if let Ok((text, consumed)) = crate::util::cstring_at(buf, off) {
        crate::util::string_read_is_the_one_that_stands_there(buf, off, text, consumed);
        let first = crate::util::cstring_bytes(text);
        assert(buf.subrange(off, off + consumed) =~= first);
        if text.len() == 0 {
            assert(first =~= seq![0u8]);
        } else {
            mime_types_are_those_that_stand_there(buf, off + consumed);
            if let Ok(rest) = mime_table_at(buf, off + consumed) {
                let types = seq![text] + rest;
                assert(types.drop_first() =~= rest);
                let len = mime_table_bytes(types).len() as int;
                assert(buf.subrange(off, off + len) =~= first + mime_table_bytes(rest));
            }
        }
    }
}

/// A stored list is its types one behind the other: each is spelled in UTF-8
/// and ends with a null byte, and a null byte of its own ends the list.
pub proof fn stored_mime_types_follow_each_other(types: Seq<Seq<char>>, text: Seq<char>)
    ensures
        mime_table_bytes(Seq::empty()) == seq![0u8],
        mime_table_bytes(seq![text] + types) == vstd::utf8::encode_utf8(text) + seq![0u8]
            + mime_table_bytes(types),
{
    assert((seq![text] + types).drop_first() =~= types);
    assert(mime_table_bytes(seq![text] + types) =~= vstd::utf8::encode_utf8(text) + seq![0u8]
        + mime_table_bytes(types));
}

/// A list that does not parse has a string that cannot be read, and the error
/// is that of reading it.
pub proof fn mime_error_is_that_of_a_string(buf: Seq<u8>, off: int)
    ensures
        mime_table_at(buf, off) matches Err(error) ==> exists|at: int|
            at >= off && #[trigger] crate::util::cstring_at(buf, at) == Err::<
                (Seq<char>, int),
                ErrorView,
            >(error),
    decreases buf.len() - off,
{
    if let Ok((text, consumed)) = crate::util::cstring_at(buf, off) {
        if text.len() > 0 {
            crate::util::lemma_first_nul(buf, off);
            mime_error_is_that_of_a_string(buf, off + consumed);
        }
    }
}

} // verus!
