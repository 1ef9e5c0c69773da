//! How the characters of a document show in its UTF-8 bytes.
//!
//! Every marker of the dialect is an ASCII character. In UTF-8 a byte below
//! `0x80` is an ASCII character of the text and never a part of another
//! character, so a text without a marker character has no marker byte.

use crate::lexer::without_carriage_returns;
use vstd::prelude::*;
use vstd::utf8::{
    encode_scalar, encode_utf8, has_width_1_encoding, is_ascii_chars, is_ascii_chars_encode_utf8,
};

verus! {

proof fn lemma_high_bytes(low: u8)
    by (bit_vector)
    ensures
        0x80u8 | low >= 0x80u8,
        0xC0u8 | low >= 0x80u8,
        0xE0u8 | low >= 0x80u8,
        0xF0u8 | low >= 0x80u8,
{
}

proof fn lemma_low_byte(scalar: u32)
    by (bit_vector)
    requires
        scalar <= 0x7Fu32,
    ensures
        (scalar & 0x7Fu32) as u8 as u32 == scalar,
{
}

/// The encoding of one character is the character itself where it is ASCII,
/// and bytes from `0x80` on elsewhere.
pub proof fn lemma_encode_scalar_bytes(scalar: u32)
    ensures
        1 <= encode_scalar(scalar).len() <= 4,
        has_width_1_encoding(scalar) ==> encode_scalar(scalar) == seq![scalar as u8],
        !has_width_1_encoding(scalar) ==> forall|i: int|
            0 <= i < encode_scalar(scalar).len() ==> encode_scalar(scalar)[i] >= 0x80,
{
    if has_width_1_encoding(scalar) {
        lemma_low_byte(scalar);
        assert(encode_scalar(scalar) =~= seq![scalar as u8]);
    } else {
        lemma_high_bytes(((scalar >> 6) & 0x1F) as u8);
        lemma_high_bytes(((scalar >> 12) & 0x0F) as u8);
        lemma_high_bytes(((scalar >> 18) & 0x7) as u8);
        lemma_high_bytes((scalar & 0x3F) as u8);
        lemma_high_bytes(((scalar >> 6) & 0x3F) as u8);
        lemma_high_bytes(((scalar >> 12) & 0x3F) as u8);
    }
}

/// The encoding of two texts in a row is the encoding of the first and then
/// that of the second.
pub proof fn lemma_encode_concat(first: Seq<char>, second: Seq<char>)
    ensures
        encode_utf8(first + second) == encode_utf8(first) + encode_utf8(second),
    decreases first.len(),
{
    if first.len() == 0 {
        assert(first + second =~= second);
        assert(encode_utf8(first) + encode_utf8(second) =~= encode_utf8(second));
    } else {
        lemma_encode_concat(first.drop_first(), second);
        assert((first + second).drop_first() =~= first.drop_first() + second);
        assert(encode_utf8(first + second) =~= encode_utf8(first) + encode_utf8(second));
    }
}

proof fn lemma_char_of_code(c: char, code: u8)
    requires
        c as u32 == code as u32,
    ensures
        c == code as char,
{
}

/// A byte below `0x80` in the encoding of a text is an ASCII character of
/// the text; the first byte of the encoding is below `0x80` only where it is
/// the first character.
pub proof fn lemma_ascii_byte_is_char(text: Seq<char>, i: int)
    requires
        0 <= i < encode_utf8(text).len(),
        encode_utf8(text)[i] < 0x80,
    ensures
        exists|j: int| 0 <= j < text.len() && text[j] == encode_utf8(text)[i] as char,
        i == 0 ==> text[0] == encode_utf8(text)[0] as char,
    decreases text.len(),
{
    let head = encode_scalar(text[0] as u32);
    let rest = text.drop_first();
    lemma_encode_scalar_bytes(text[0] as u32);
    if i < head.len() {
        assert(encode_utf8(text)[i] == head[i]);
        lemma_char_of_code(text[0], encode_utf8(text)[i]);
    } else {
        assert(encode_utf8(text)[i] == encode_utf8(rest)[i - head.len()]);
        lemma_ascii_byte_is_char(rest, i - head.len());
        let j = choose|j: int|
            0 <= j < rest.len() && rest[j] == encode_utf8(rest)[i - head.len()] as char;
        assert(text[j + 1] == rest[j]);
    }
}

/// An ASCII character of a text is a byte of its encoding.
pub proof fn lemma_ascii_char_is_byte(text: Seq<char>, j: int)
    requires
        0 <= j < text.len(),
        has_width_1_encoding(text[j] as u32),
    ensures
        exists|i: int|
            0 <= i < encode_utf8(text).len() && encode_utf8(text)[i] == text[j] as u32 as u8,
    decreases text.len(),
{
    let head = encode_scalar(text[0] as u32);
    let rest = text.drop_first();
    lemma_encode_scalar_bytes(text[0] as u32);
    if j == 0 {
        assert(encode_utf8(text)[0] == head[0]);
    } else {
        lemma_ascii_char_is_byte(rest, j - 1);
        let i = choose|i: int|
            0 <= i < encode_utf8(rest).len() && encode_utf8(rest)[i] == rest[j - 1] as u32 as u8;
        assert(encode_utf8(text)[head.len() + i] == encode_utf8(rest)[i]);
        assert(rest[j - 1] == text[j]);
    }
}

/// A byte that `bytes` do not hold is not left when the carriage returns are
/// dropped.
pub proof fn lemma_without_carriage_returns_adds_nothing(bytes: Seq<u8>, byte: u8)
    requires
        forall|i: int| 0 <= i < bytes.len() ==> bytes[i] != byte,
    ensures
        forall|i: int|
            0 <= i < without_carriage_returns(bytes).len() ==> without_carriage_returns(bytes)[i]
                != byte,
    decreases bytes.len(),
{
    if bytes.len() > 0 {
        let init = bytes.drop_last();
        assert forall|i: int| 0 <= i < init.len() implies init[i] != byte by {
            assert(init[i] == bytes[i]);
        }
        lemma_without_carriage_returns_adds_nothing(init, byte);
        let rest = without_carriage_returns(init);
        assert forall|i: int| 0 <= i < without_carriage_returns(bytes).len() implies
            without_carriage_returns(bytes)[i] != byte by {
            if i < rest.len() {
                assert(rest[i] != byte);
            } else {
                assert(bytes.last() == bytes[bytes.len() - 1]);
            }
        }
    }
}

/// The encoding of a text is empty only where the text is.
pub proof fn lemma_encode_len(text: Seq<char>)
    ensures
        text.len() > 0 ==> encode_utf8(text).len() > 0,
        text.len() == 0 ==> encode_utf8(text).len() == 0,
{
    if text.len() > 0 {
        lemma_encode_scalar_bytes(text[0] as u32);
    }
}

/// The encoding of ASCII characters is the characters themselves.
pub proof fn lemma_encode_ascii(text: Seq<char>)
    requires
        is_ascii_chars(text),
    ensures
        encode_utf8(text) == Seq::new(text.len(), |i: int| text[i] as u8),
{
    is_ascii_chars_encode_utf8(text);
    assert(encode_utf8(text) =~= Seq::new(text.len(), |i: int| text[i] as u8));
}

/// Dropping the carriage returns of two byte sequences in a row is dropping
/// them from each.
pub proof fn lemma_without_carriage_returns_concat(first: Seq<u8>, second: Seq<u8>)
    ensures
        without_carriage_returns(first + second) == without_carriage_returns(first)
            + without_carriage_returns(second),
    decreases second.len(),
{
    if second.len() == 0 {
        assert(first + second =~= first);
        assert(without_carriage_returns(first) + without_carriage_returns(second)
            =~= without_carriage_returns(first));
    } else {
        lemma_without_carriage_returns_concat(first, second.drop_last());
        assert((first + second).drop_last() =~= first + second.drop_last());
        assert(without_carriage_returns(first + second) =~= without_carriage_returns(first)
            + without_carriage_returns(second));
    }
}

} // verus!
