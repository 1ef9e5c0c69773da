//! Byte-level scanning: where runs of bytes begin and end in a document.
//!
//! A document is a sequence of bytes. Past its end every position reads as
//! [`NUL`], the end sentinel.

use vstd::prelude::*;

verus! {

/// The end sentinel.
pub const NUL: u8 = 0;

/// The line break.
pub const LINE_FEED: u8 = 10;

/// The carriage return, which never reaches the lexer.
pub const CARRIAGE_RETURN: u8 = 13;

pub const SPACE: u8 = 32;

/// `#`
pub const HASH: u8 = 35;

/// `*`
pub const ASTERISK: u8 = 42;

/// `<`
pub const LESS_THAN: u8 = 60;

/// `-`
pub const DASH: u8 = 45;

/// `` ` ``
pub const BACKTICK: u8 = 96;

/// The byte at position `i`, or the end sentinel where the document has none.
pub open spec fn byte_at(input: Seq<u8>, i: int) -> u8 {
    if 0 <= i < input.len() {
        input[i]
    } else {
        NUL
    }
}

/// Whether `byte` ends a run of text: a heading, code or emphasis marker, a
/// line break, or the end sentinel.
pub open spec fn is_text_stop(byte: u8) -> bool {
    byte == HASH || byte == BACKTICK || byte == ASTERISK || byte == LINE_FEED || byte == NUL
}

/// The first position at or after `from` whose byte is not `byte`; the end of
/// the document if there is none.
pub open spec fn run_end(input: Seq<u8>, from: int, byte: u8) -> int
    decreases input.len() - from,
{
    if 0 <= from < input.len() && input[from] == byte {
        run_end(input, from + 1, byte)
    } else {
        from
    }
}

/// The first position at or after `from` whose byte is `byte`; the end of the
/// document if there is none.
pub open spec fn find_byte(input: Seq<u8>, from: int, byte: u8) -> int
    decreases input.len() - from,
{
    if 0 <= from < input.len() && input[from] != byte {
        find_byte(input, from + 1, byte)
    } else {
        from
    }
}

/// The first position at or after `from` whose byte ends a run of text; the
/// end of the document if there is none.
pub open spec fn text_end(input: Seq<u8>, from: int) -> int
    decreases input.len() - from,
{
    if 0 <= from < input.len() && !is_text_stop(input[from]) {
        text_end(input, from + 1)
    } else {
        from
    }
}

/// `run_end` is the one position `end` such that every byte of
/// `from..end` is `byte` and the byte at `end` is not.
pub proof fn lemma_run_end(input: Seq<u8>, from: int, byte: u8, end: int)
    requires
        0 <= from <= end <= input.len(),
        forall|i: int| from <= i < end ==> input[i] == byte,
        end == input.len() || input[end] != byte,
    ensures
        run_end(input, from, byte) == end,
    decreases end - from,
{
    if from < end {
        lemma_run_end(input, from + 1, byte, end);
    }
}

/// What `run_end` returns: the run it skips holds only `byte`, and stops at
/// another byte or at the end of the document.
pub proof fn lemma_run_end_bounds(input: Seq<u8>, from: int, byte: u8)
    requires
        0 <= from <= input.len(),
    ensures
        from <= run_end(input, from, byte) <= input.len(),
        forall|i: int| from <= i < run_end(input, from, byte) ==> input[i] == byte,
        byte != NUL ==> byte_at(input, run_end(input, from, byte)) != byte,
        run_end(input, from, byte) < input.len() ==> input[run_end(input, from, byte)] != byte,
    decreases input.len() - from,
{
    if from < input.len() && input[from] == byte {
        lemma_run_end_bounds(input, from + 1, byte);
    }
}

/// `find_byte` is the one position `end` such that no byte of `from..end` is
/// `byte` and the byte at `end` is, or the document ends there.
pub proof fn lemma_find_byte(input: Seq<u8>, from: int, byte: u8, end: int)
    requires
        0 <= from <= end <= input.len(),
        forall|i: int| from <= i < end ==> input[i] != byte,
        end == input.len() || input[end] == byte,
    ensures
        find_byte(input, from, byte) == end,
    decreases end - from,
{
    if from < end {
        lemma_find_byte(input, from + 1, byte, end);
    }
}

/// What `find_byte` returns: no byte before it is `byte`, and it stands on
/// `byte` or at the end of the document.
pub proof fn lemma_find_byte_bounds(input: Seq<u8>, from: int, byte: u8)
    requires
        0 <= from <= input.len(),
    ensures
        from <= find_byte(input, from, byte) <= input.len(),
        forall|i: int| from <= i < find_byte(input, from, byte) ==> input[i] != byte,
        find_byte(input, from, byte) < input.len() ==> input[find_byte(input, from, byte)] == byte,
    decreases input.len() - from,
{
    if from < input.len() && input[from] != byte {
        lemma_find_byte_bounds(input, from + 1, byte);
    }
}

/// `text_end` is the one position `end` such that no byte of `from..end` ends
/// a run of text and the byte at `end` does, or the document ends there.
pub proof fn lemma_text_end(input: Seq<u8>, from: int, end: int)
    requires
        0 <= from <= end <= input.len(),
        forall|i: int| from <= i < end ==> !is_text_stop(input[i]),
        end == input.len() || is_text_stop(input[end]),
    ensures
        text_end(input, from) == end,
    decreases end - from,
{
    if from < end {
        lemma_text_end(input, from + 1, end);
    }
}

/// What `text_end` returns: the run before it holds no stop byte, and it
/// stands on one or at the end of the document.
pub proof fn lemma_text_end_bounds(input: Seq<u8>, from: int)
    requires
        0 <= from <= input.len(),
    ensures
        from <= text_end(input, from) <= input.len(),
        forall|i: int| from <= i < text_end(input, from) ==> !is_text_stop(input[i]),
        is_text_stop(byte_at(input, text_end(input, from))),
    decreases input.len() - from,
{
    if from < input.len() && !is_text_stop(input[from]) {
        lemma_text_end_bounds(input, from + 1);
    }
}

} // verus!
