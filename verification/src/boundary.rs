//! Cutting a text at byte positions that fall between characters.

use crate::text::{byte_len, lemma_text_bytes_is_utf8_length};
use vstd::prelude::*;
use vstd::string::*;
use vstd::utf8::*;

verus! {

/// The last position, at or before `index`, between two characters of the text (or at an end).
pub open spec fn floor_boundary(s: Seq<char>, index: int) -> int
    decreases index,
{
    let bytes = encode_utf8(s);
    if index <= 0 {
        0
    } else if index >= bytes.len() {
        bytes.len() as int
    } else if is_char_boundary(bytes, index) {
        index
    } else {
        floor_boundary(s, index - 1)
    }
}

/// The first position behind `index` between two characters of the text, or its end.
pub open spec fn next_boundary(s: Seq<char>, index: int) -> int
    decreases encode_utf8(s).len() - index,
{
    let bytes = encode_utf8(s);
    if index + 1 >= bytes.len() {
        bytes.len() as int
    } else if is_char_boundary(bytes, index + 1) {
        index + 1
    } else {
        next_boundary(s, index + 1)
    }
}

/// The position falls between two characters of the text, or at one of its ends.
pub open spec fn boundary(s: Seq<char>, index: int) -> bool {
    is_char_boundary(encode_utf8(s), index)
}

/// The characters whose bytes lie between the two positions.
pub open spec fn slice(s: Seq<char>, from: int, to: int) -> Seq<char> {
    decode_utf8(encode_utf8(s).subrange(from, to))
}

pub proof fn lemma_floor_boundary(s: Seq<char>, index: int)
    ensures
        0 <= floor_boundary(s, index) <= encode_utf8(s).len(),
        boundary(s, floor_boundary(s, index)),
        index >= 0 ==> floor_boundary(s, index) <= index,
    decreases index,
{
    let bytes = encode_utf8(s);
    encode_utf8_valid_utf8(s);
    is_char_boundary_start_end_of_seq(bytes);
    if index > 0 && index < bytes.len() && !is_char_boundary(bytes, index) {
        lemma_floor_boundary(s, index - 1);
    }
}

pub proof fn lemma_next_boundary(s: Seq<char>, index: int)
    requires
        0 <= index <= encode_utf8(s).len(),
    ensures
        index <= next_boundary(s, index) <= encode_utf8(s).len(),
        index < encode_utf8(s).len() ==> index < next_boundary(s, index),
        boundary(s, next_boundary(s, index)),
    decreases encode_utf8(s).len() - index,
{
    let bytes = encode_utf8(s);
    encode_utf8_valid_utf8(s);
    is_char_boundary_start_end_of_seq(bytes);
    if index + 1 < bytes.len() && !is_char_boundary(bytes, index + 1) {
        lemma_next_boundary(s, index + 1);
    }
}

/// A boundary of a text is a boundary of every part that reaches to it from the front.
proof fn lemma_boundary_in_prefix(s: Seq<char>, from: int, to: int)
    requires
        0 <= from <= to <= encode_utf8(s).len(),
        boundary(s, from),
        boundary(s, to),
    ensures
        valid_utf8(encode_utf8(s).subrange(0, to)),
        is_char_boundary(encode_utf8(s).subrange(0, to), from),
        valid_utf8(encode_utf8(s).subrange(from, to)),
{
    let bytes = encode_utf8(s);
    encode_utf8_valid_utf8(s);
    valid_utf8_split(bytes, to);
    let front = bytes.subrange(0, to);
    if from == to {
        is_char_boundary_start_end_of_seq(front);
    } else {
        is_char_boundary_iff_not_is_continuation_byte(bytes, from);
        is_char_boundary_iff_not_is_continuation_byte(front, from);
        assert(front[from] == bytes[from]);
    }
    valid_utf8_split(front, from);
    assert(front.subrange(from, front.len() as int) =~= bytes.subrange(from, to));
}

/// Two slices that meet at a boundary make up the slice of both.
pub proof fn lemma_slices_meet(s: Seq<char>, from: int, mid: int, to: int)
    requires
        0 <= from <= mid <= to <= encode_utf8(s).len(),
        boundary(s, from),
        boundary(s, mid),
        boundary(s, to),
    ensures
        slice(s, from, to) == slice(s, from, mid) + slice(s, mid, to),
{
    let bytes = encode_utf8(s);
    let whole = bytes.subrange(from, to);
    lemma_boundary_in_prefix(s, from, to);
    lemma_boundary_in_prefix(s, mid, to);
    encode_utf8_valid_utf8(s);
    if mid == to {
        is_char_boundary_start_end_of_seq(whole);
    } else {
        is_char_boundary_iff_not_is_continuation_byte(bytes, mid);
        is_char_boundary_iff_not_is_continuation_byte(whole, mid - from);
        assert(whole[mid - from] == bytes[mid]);
    }
    decode_utf8_split(whole, mid - from);
    assert(whole.subrange(0, mid - from) =~= bytes.subrange(from, mid));
    assert(whole.subrange(mid - from, whole.len() as int) =~= bytes.subrange(mid, to));
}

pub proof fn lemma_slice_whole(s: Seq<char>)
    ensures
        slice(s, 0, encode_utf8(s).len() as int) == s,
        slice(s, encode_utf8(s).len() as int, encode_utf8(s).len() as int) == Seq::<char>::empty(),
        boundary(s, 0),
        boundary(s, encode_utf8(s).len() as int),
{
    let bytes = encode_utf8(s);
    assert(bytes.subrange(0, bytes.len() as int) =~= bytes);
    encode_utf8_decode_utf8(s);
    encode_utf8_valid_utf8(s);
    is_char_boundary_start_end_of_seq(bytes);
    let none = bytes.subrange(bytes.len() as int, bytes.len() as int);
    assert(none =~= Seq::<u8>::empty());
    assert(valid_utf8(none));
    assert(decode_utf8(none) =~= Seq::<char>::empty());
}

pub fn floor_char_boundary(text: &str, index: usize) -> (r: usize)
    ensures
        r == floor_boundary(text@, index as int),
        boundary(text@, r as int),
        r <= index,
{
    let len: usize = byte_len(text);
    proof {
        lemma_text_bytes_is_utf8_length(text@);
        lemma_floor_boundary(text@, index as int);
    }
    let mut at: usize = if index <= len {
        index
    } else {
        len
    };
    proof {
        encode_utf8_valid_utf8(text@);
        is_char_boundary_start_end_of_seq(encode_utf8(text@));
    }
    while at > 0 && !text.is_char_boundary(at)
        invariant
            len == encode_utf8(text@).len(),
            at <= len,
            is_char_boundary(encode_utf8(text@), len as int),
            floor_boundary(text@, at as int) == floor_boundary(text@, index as int),
        ensures
            at == 0 || is_char_boundary(encode_utf8(text@), at as int),
        decreases at,
    {
        at -= 1;
    }
    at
}

pub fn next_char_boundary(text: &str, index: usize) -> (r: usize)
    requires
        boundary(text@, index as int),
        index <= encode_utf8(text@).len(),
    ensures
        r == next_boundary(text@, index as int),
        boundary(text@, r as int),
        index < encode_utf8(text@).len() ==> index < r,
{
    let len: usize = byte_len(text);
    proof {
        lemma_text_bytes_is_utf8_length(text@);
        lemma_next_boundary(text@, index as int);
    }
    if index == len {
        return len;
    }
    let mut at: usize = index + 1;
    while at < len && !text.is_char_boundary(at)
        invariant
            len == encode_utf8(text@).len(),
            index < at <= len,
            next_boundary(text@, at - 1) == next_boundary(text@, index as int),
        ensures
            at == len || is_char_boundary(encode_utf8(text@), at as int),
        decreases len - at,
    {
        at += 1;
    }
    at
}

/// The part of the text between two boundaries.
pub fn byte_slice(text: &str, from: usize, to: usize) -> (r: String)
    requires
        from <= to <= encode_utf8(text@).len(),
        boundary(text@, from as int),
        boundary(text@, to as int),
    ensures
        r@ == slice(text@, from as int, to as int),
{
    let ghost bytes = encode_utf8(text@);
    proof {
        lemma_boundary_in_prefix(text@, from as int, to as int);
    }
    let (front, _) = text.split_at(to);
    assert(front.spec_bytes() == bytes.subrange(0, to as int));
    let (_, part) = front.split_at(from);
    proof {
        assert(part.spec_bytes() =~= bytes.subrange(from as int, to as int));
        encode_utf8_decode_utf8(part@);
    }
    part.to_owned()
}

} // verus!
