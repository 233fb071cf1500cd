//! How positions in a text relate to positions in its UTF-8 bytes.
//!
//! The executable code walks the bytes of a `&str`, while the contracts speak
//! of its characters. The lemmas here carry facts from one side to the other.

use vstd::prelude::*;
use vstd::string::*;
use vstd::utf8::*;
use crate::text::{has_substring, occurs_at};

verus! {

/// Encoding a text piece by piece gives the encoding of the whole.
pub proof fn lemma_encode_concat(a: Seq<char>, b: Seq<char>)
    ensures
        encode_utf8(a + b) == encode_utf8(a) + encode_utf8(b),
    decreases a.len(),
{
    if a.len() > 0 {
        assert((a + b).drop_first() =~= a.drop_first() + b);
        lemma_encode_concat(a.drop_first(), b);
    }
}

/// A valid encoding that is cut where a shorter valid encoding ends is cut
/// between two characters.
pub proof fn lemma_valid_prefix_ends_at_boundary(bytes: Seq<u8>, end: int)
    requires
        valid_utf8(bytes),
        0 <= end <= bytes.len(),
        valid_utf8(bytes.subrange(0, end)),
    ensures
        is_char_boundary(bytes, end),
    decreases end,
{
    if end > 0 {
        let prefix = bytes.subrange(0, end);
        let width = length_of_first_scalar(bytes);
        assert(pop_first_scalar(prefix) =~= pop_first_scalar(bytes).subrange(0, end - width));
        lemma_valid_prefix_ends_at_boundary(pop_first_scalar(bytes), end - width);
    }
}

/// An occurrence among the characters shows as an occurrence among the bytes,
/// at the position where the encoding of the characters before it ends.
pub proof fn lemma_occurrence_is_encoded(hay: Seq<char>, needle: Seq<char>, at: int)
    requires
        occurs_at(hay, needle, at),
    ensures
        occurs_at(
            encode_utf8(hay),
            encode_utf8(needle),
            encode_utf8(hay.subrange(0, at)).len() as int,
        ),
{
    let before = hay.subrange(0, at);
    let after = hay.subrange(at + needle.len(), hay.len() as int);
    assert(hay =~= before + needle + after);
    lemma_encode_concat(before, needle);
    lemma_encode_concat(before + needle, after);
    let start = encode_utf8(before).len() as int;
    assert(encode_utf8(hay).subrange(start, start + encode_utf8(needle).len()) =~= encode_utf8(
        needle,
    ));
}

/// An occurrence among the bytes of two texts begins and ends between
/// characters, so it is an occurrence among the characters too.
pub proof fn lemma_occurrence_is_decoded(hay: Seq<char>, needle: Seq<char>, at: int)
    requires
        occurs_at(encode_utf8(hay), encode_utf8(needle), at),
    ensures
        has_substring(hay, needle),
{
    broadcast use {encode_utf8_valid_utf8, encode_utf8_decode_utf8};

    let hay_bytes = encode_utf8(hay);
    let needle_bytes = encode_utf8(needle);
    if needle_bytes.len() == 0 {
        assert(hay.subrange(0, 0) =~= needle);
        assert(occurs_at(hay, needle, 0));
    } else {
        let width = needle_bytes.len() as int;
        is_char_boundary_iff_not_is_continuation_byte(hay_bytes, at);
        valid_utf8_split(hay_bytes, at);
        decode_utf8_split(hay_bytes, at);
        let tail = hay_bytes.subrange(at, hay_bytes.len() as int);
        assert(tail.subrange(0, width) =~= needle_bytes);
        lemma_valid_prefix_ends_at_boundary(tail, width);
        decode_utf8_split(tail, width);
        let before = decode_utf8(hay_bytes.subrange(0, at));
        let after = decode_utf8(tail.subrange(width, tail.len() as int));
        assert(hay =~= before + needle + after);
        let start = before.len() as int;
        assert(hay.subrange(start, start + needle.len()) =~= needle);
        assert(occurs_at(hay, needle, start));
    }
}

/// A text holds another exactly when its bytes hold the other's bytes.
pub proof fn lemma_substring_of_encoding(hay: Seq<char>, needle: Seq<char>)
    ensures
        has_substring(encode_utf8(hay), encode_utf8(needle)) == has_substring(hay, needle),
{
    if has_substring(hay, needle) {
        let at = choose|at: int| occurs_at(hay, needle, at);
        lemma_occurrence_is_encoded(hay, needle, at);
    }
    if has_substring(encode_utf8(hay), encode_utf8(needle)) {
        let at = choose|at: int| occurs_at(encode_utf8(hay), encode_utf8(needle), at);
        lemma_occurrence_is_decoded(hay, needle, at);
    }
}

/// An ASCII character alone is encoded as the one byte of the same value.
pub proof fn lemma_encode_ascii_char(c: char)
    requires
        c <= '\u{7f}',
    ensures
        encode_utf8(seq![c]) == seq![c as u8],
{
    let single = seq![c];
    let scalar = c as u32;
    assert(leading_byte_width_1(scalar) == scalar as u8) by (bit_vector)
        requires
            scalar <= 0x7f,
    ;
    assert(encode_utf8(single.drop_first()) =~= Seq::<u8>::empty());
}

/// An ASCII character in a text is encoded as the one byte of the same value,
/// between the encodings of what stands before it and of what stands after it.
pub proof fn lemma_encode_around_ascii_char(text: Seq<char>, i: int)
    requires
        0 <= i < text.len(),
        text[i] <= '\u{7f}',
    ensures
        encode_utf8(text) == encode_utf8(text.subrange(0, i)) + seq![text[i] as u8] + encode_utf8(
            text.subrange(i + 1, text.len() as int),
        ),
{
    let before = text.subrange(0, i);
    let single = seq![text[i]];
    let after = text.subrange(i + 1, text.len() as int);
    assert(text =~= before + single + after);
    lemma_encode_concat(before, single);
    lemma_encode_concat(before + single, after);
    lemma_encode_ascii_char(text[i]);
}

/// An ASCII byte in the encoding of a text is a character of its own: the
/// text is what the bytes before it decode to, that character, and what the
/// bytes after it decode to.
pub proof fn lemma_decode_around_ascii_byte(text: Seq<char>, at: int)
    requires
        0 <= at < encode_utf8(text).len(),
        encode_utf8(text)[at] <= 0x7f,
    ensures
        is_char_boundary(encode_utf8(text), at),
        is_char_boundary(encode_utf8(text).subrange(at, encode_utf8(text).len() as int), 1),
        text == decode_utf8(encode_utf8(text).subrange(0, at)) + seq![
            encode_utf8(text)[at] as char,
        ] + decode_utf8(encode_utf8(text).subrange(at + 1, encode_utf8(text).len() as int)),
{
    broadcast use {encode_utf8_valid_utf8, encode_utf8_decode_utf8};

    let bytes = encode_utf8(text);
    let byte = bytes[at];
    is_char_boundary_iff_is_leading_byte(bytes, at);
    valid_utf8_split(bytes, at);
    decode_utf8_split(bytes, at);
    let tail = bytes.subrange(at, bytes.len() as int);
    assert(is_char_boundary(tail, 1)) by {
        reveal_with_fuel(is_char_boundary, 2);
    }
    valid_utf8_split(tail, 1);
    decode_utf8_split(tail, 1);
    let single = tail.subrange(0, 1);
    assert(codepoint_width_1(byte) == byte as u32) by (bit_vector)
        requires
            byte <= 0x7f,
    ;
    assert(decode_utf8(single) =~= seq![byte as char]) by {
        reveal_with_fuel(decode_utf8, 2);
    }
    assert(tail.subrange(1, tail.len() as int) =~= bytes.subrange(at + 1, bytes.len() as int));
}

/// A text whose encoding holds no byte of some ASCII value holds no character
/// of that value.
pub proof fn lemma_absent_byte_is_absent_char(text: Seq<char>, c: char)
    requires
        c <= '\u{7f}',
        forall|at: int| 0 <= at < encode_utf8(text).len() ==> encode_utf8(text)[at] != c as u8,
    ensures
        forall|i: int| 0 <= i < text.len() ==> text[i] != c,
{
    assert forall|i: int| 0 <= i < text.len() implies text[i] != c by {
        if text[i] == c {
            lemma_encode_around_ascii_char(text, i);
            let at = encode_utf8(text.subrange(0, i)).len() as int;
            assert(encode_utf8(text)[at] == c as u8);
        }
    }
}

/// Only the empty text has an empty encoding.
pub proof fn lemma_empty_encoding(text: Seq<char>)
    ensures
        encode_utf8(text).len() == 0 <==> text.len() == 0,
{
    if text.len() > 0 {
        assert(encode_scalar(text[0] as u32).len() > 0);
    }
}

/// Cuts `text` in two around the ASCII byte at `at`, which goes to neither part.
pub(crate) fn split_around<'a>(text: &'a str, at: usize) -> (parts: (&'a str, &'a str))
    requires
        at < text.spec_bytes().len(),
        text.spec_bytes()[at as int] <= 0x7f,
    ensures
        text@ == parts.0@ + seq![text.spec_bytes()[at as int] as char] + parts.1@,
        parts.0.spec_bytes() == text.spec_bytes().subrange(0, at as int),
        parts.1.spec_bytes() == text.spec_bytes().subrange(
            at + 1,
            text.spec_bytes().len() as int,
        ),
{
    broadcast use encode_utf8_decode_utf8;

    proof {
        lemma_decode_around_ascii_byte(text@, at as int);
    }
    let (before, rest) = text.split_at(at);
    let (_, after) = rest.split_at(1);
    proof {
        let bytes = text.spec_bytes();
        assert(after.spec_bytes() =~= bytes.subrange(at + 1, bytes.len() as int));
    }
    (before, after)
}

} // verus!
