//! Text addressed by byte offsets, as a pattern search reports them.

use vstd::prelude::*;
use vstd::string::*;
use vstd::utf8::*;

verus! {

/// Whether `start..end` is a byte range of `text` that cuts no character.
pub open spec fn is_span(text: Seq<char>, start: int, end: int) -> bool {
    let bytes = encode_utf8(text);
    &&& 0 <= start <= end <= bytes.len()
    &&& is_char_boundary(bytes, start)
    &&& is_char_boundary(bytes, end)
}

/// The characters of `text` that its bytes `start..end` encode.
pub open spec fn slice(text: Seq<char>, start: int, end: int) -> Seq<char> {
    decode_utf8(encode_utf8(text).subrange(start, end))
}

/// `text` with its bytes `start..end` taken out and `with` put in their place.
pub open spec fn replaced(text: Seq<char>, start: int, end: int, with: Seq<char>) -> Seq<char> {
    slice(text, 0, start) + with + slice(text, end, encode_utf8(text).len() as int)
}

/// A boundary of the whole is a boundary of each prefix that reaches it.
pub proof fn lemma_boundary_in_prefix(bytes: Seq<u8>, start: int, end: int)
    requires
        valid_utf8(bytes),
        0 <= start <= end <= bytes.len(),
        is_char_boundary(bytes, start),
        is_char_boundary(bytes, end),
    ensures
        valid_utf8(bytes.subrange(0, end)),
        is_char_boundary(bytes.subrange(0, end), start),
{
    let prefix = bytes.subrange(0, end);
    valid_utf8_split(bytes, end);
    if start == end {
        is_char_boundary_start_end_of_seq(prefix);
    } else {
        is_char_boundary_iff_not_is_continuation_byte(bytes, start);
        is_char_boundary_iff_not_is_continuation_byte(prefix, start);
    }
}

/// The part of `text` between two byte offsets.
pub fn substring<'a>(text: &'a str, start: usize, end: usize) -> (r: &'a str)
    requires
        is_span(text@, start as int, end as int),
    ensures
        r@ == slice(text@, start as int, end as int),
{
    proof {
        encode_utf8_valid_utf8(text@);
        lemma_boundary_in_prefix(text.spec_bytes(), start as int, end as int);
    }
    let (head, _) = text.split_at(end);
    let (_, part) = head.split_at(start);
    proof {
        encode_utf8_decode_utf8(part@);
        assert(part.spec_bytes() =~= text.spec_bytes().subrange(start as int, end as int));
    }
    part
}

/// Replaces the bytes `start..end` of `text` by `with`.
pub fn splice(text: &str, start: usize, end: usize, with: &str) -> (r: String)
    requires
        is_span(text@, start as int, end as int),
    ensures
        r@ == replaced(text@, start as int, end as int, with@),
{
    proof {
        encode_utf8_valid_utf8(text@);
    }
    let (head, _) = text.split_at(start);
    let (_, tail) = text.split_at(end);
    proof {
        encode_utf8_decode_utf8(head@);
        encode_utf8_decode_utf8(tail@);
    }
    let mut result = String::from_str(head);
    result.append(with);
    result.append(tail);
    result
}

} // verus!
