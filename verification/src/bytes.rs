//! Strings as bytes: character data is measured in the bytes of its UTF-8 form, and is cut
//! only where one character ends and the next begins.

use vstd::prelude::*;
use vstd::utf8::{
    decode_utf8, encode_utf8, encode_utf8_decode_utf8, encode_utf8_valid_utf8, is_char_boundary,
    is_char_boundary_iff_not_is_continuation_byte, is_char_boundary_start_end_of_seq,
    valid_utf8_split,
};

verus! {

/// Whether data of the bytes `b` can be cut at `index`: `index` lies within the data or at
/// its end, and no character has bytes on both sides of it.
pub open spec fn can_cut(b: Seq<u8>, index: int) -> bool {
    0 <= index <= b.len() && is_char_boundary(b, index)
}

/// The characters whose bytes are the bytes of `s` from `from` up to, but without, `to`.
pub open spec fn byte_range(s: Seq<char>, from: int, to: int) -> Seq<char> {
    decode_utf8(encode_utf8(s).subrange(from, to))
}

/// The bytes of two strings one after the other are the bytes of the two joined.
pub proof fn lemma_encode_concat(a: Seq<char>, b: Seq<char>)
    ensures
        encode_utf8(a + b) == encode_utf8(a) + encode_utf8(b),
    decreases a.len(),
{
    if a.len() == 0 {
        assert(a + b =~= b);
        assert(encode_utf8(a) + encode_utf8(b) =~= encode_utf8(b));
    } else {
        lemma_encode_concat(a.drop_first(), b);
        assert((a + b).drop_first() =~= a.drop_first() + b);
        assert((a + b)[0] == a[0]);
        let head = vstd::utf8::encode_scalar(a[0] as u32);
        assert(head + (encode_utf8(a.drop_first()) + encode_utf8(b)) =~= (head + encode_utf8(
            a.drop_first(),
        )) + encode_utf8(b));
    }
}

/// A string can be cut before its first byte and behind its last, and what lies between
/// two cuts at the same place is nothing.
pub proof fn lemma_ends(s: Seq<char>)
    ensures
        can_cut(encode_utf8(s), 0),
        can_cut(encode_utf8(s), encode_utf8(s).len() as int),
        byte_range(s, 0, encode_utf8(s).len() as int) == s,
        forall|i: int|
            0 <= i <= encode_utf8(s).len() ==> #[trigger] byte_range(s, i, i) == Seq::<
                char,
            >::empty(),
{
    let b = encode_utf8(s);
    encode_utf8_valid_utf8(s);
    is_char_boundary_start_end_of_seq(b);
    assert(b.subrange(0, b.len() as int) =~= b);
    encode_utf8_decode_utf8(s);
    assert forall|i: int| 0 <= i <= b.len() implies #[trigger] byte_range(s, i, i) == Seq::<
        char,
    >::empty() by {
        assert(b.subrange(i, i) =~= Seq::<u8>::empty());
        assert(decode_utf8(Seq::<u8>::empty()) =~= Seq::<char>::empty());
    }
}

/// The two parts into which a string is cut make up the string.
pub proof fn lemma_cut_parts(s: Seq<char>, at: int)
    requires
        can_cut(encode_utf8(s), at),
    ensures
        byte_range(s, 0, at) + byte_range(s, at, encode_utf8(s).len() as int) == s,
        encode_utf8(byte_range(s, 0, at)).len() == at,
{
    let b = encode_utf8(s);
    encode_utf8_valid_utf8(s);
    encode_utf8_decode_utf8(s);
    vstd::utf8::decode_utf8_split(b, at);
    lemma_ends(s);
    lemma_byte_range(s, 0, at);
}

/// A part of the bytes of a string that is cut out at two places where it can be cut is
/// itself the bytes of a string: of the characters that `byte_range` gives.
pub proof fn lemma_byte_range(s: Seq<char>, from: int, to: int)
    requires
        from <= to,
        can_cut(encode_utf8(s), from),
        can_cut(encode_utf8(s), to),
    ensures
        encode_utf8(byte_range(s, from, to)) == encode_utf8(s).subrange(from, to),
        can_cut(encode_utf8(s).subrange(0, to), from),
        can_cut(encode_utf8(s).subrange(from, encode_utf8(s).len() as int), to - from),
{
    let b = encode_utf8(s);
    encode_utf8_valid_utf8(s);
    is_char_boundary_start_end_of_seq(b);
    valid_utf8_split(b, to);
    valid_utf8_split(b, from);
    let head = b.subrange(0, to);
    let tail = b.subrange(from, b.len() as int);
    lemma_cut_in_part(b, 0, to, from);
    lemma_cut_in_part(b, from, b.len() as int, to);
    assert(head.subrange(from, head.len() as int) =~= b.subrange(from, to));
    valid_utf8_split(head, from);
    vstd::utf8::decode_utf8_encode_utf8(b.subrange(from, to));
}

/// Where a part of valid bytes that reaches from one cut to another can be cut, the whole
/// can be cut, and the other way round.
pub proof fn lemma_cut_in_part(b: Seq<u8>, from: int, to: int, index: int)
    requires
        vstd::utf8::valid_utf8(b),
        from <= index <= to,
        can_cut(b, from),
        can_cut(b, to),
    ensures
        vstd::utf8::valid_utf8(b.subrange(from, to)),
        can_cut(b.subrange(from, to), index - from) <==> can_cut(b, index),
{
    valid_utf8_split(b, to);
    let head = b.subrange(0, to);
    is_char_boundary_start_end_of_seq(head);
    if from < to {
        is_char_boundary_iff_not_is_continuation_byte(b, from);
        is_char_boundary_iff_not_is_continuation_byte(head, from);
    }
    assert(is_char_boundary(head, from)) by {
        if from == to {
        }
    }
    valid_utf8_split(head, from);
    let part = b.subrange(from, to);
    assert(head.subrange(from, head.len() as int) =~= part);
    is_char_boundary_start_end_of_seq(part);
    if index < to {
        is_char_boundary_iff_not_is_continuation_byte(b, index);
        is_char_boundary_iff_not_is_continuation_byte(part, index - from);
    }
}

/// The number of bytes of `s`.
pub fn byte_len(s: &str) -> (r: usize)
    ensures
        r == encode_utf8(s@).len(),
{
    s.as_bytes().len()
}

/// Whether `s` can be cut at `index`.
pub fn is_cut(s: &str, index: usize) -> (r: bool)
    ensures
        r == can_cut(encode_utf8(s@), index as int),
{
    index <= byte_len(s) && s.is_char_boundary(index)
}

/// The characters of `s` whose bytes are those from `from` up to, but without, `to`.
pub fn slice_bytes(s: &str, from: usize, to: usize) -> (r: String)
    requires
        from <= to,
        can_cut(encode_utf8(s@), from as int),
        can_cut(encode_utf8(s@), to as int),
    ensures
        r@ == byte_range(s@, from as int, to as int),
{
    proof {
        lemma_byte_range(s@, from as int, to as int);
    }
    let (head, _) = s.split_at(to);
    let (_, part) = head.split_at(from);
    proof {
        encode_utf8_decode_utf8(part@);
        assert(encode_utf8(part@) =~= encode_utf8(s@).subrange(from as int, to as int));
    }
    part.to_owned()
}

} // verus!
