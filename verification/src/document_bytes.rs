//! What the lexer and the renderer make of bytes of a given shape.
//!
//! The lemmas of this module speak of the bytes of a document as the lexer
//! reads them: UTF-8, without carriage returns. The module `documents`
//! states the same of the characters of a document.

use crate::fragments::{
    lemma_render_code, lemma_render_code_block, lemma_render_emphasis, lemma_render_heading,
    lemma_render_heading_alone, lemma_render_nested_item, lemma_render_paragraphs,
    lemma_render_soft_break,
};
use crate::html::{
    code_block_html, emphasis_end_tag, emphasis_start_tag, emphasis_token, has_illegal,
    heading_end_tag, heading_start_tag, render, repeated, RenderError,
};
use crate::lexer::{
    at_line_start, language_of, lex, lex_from, lex_step, text_of, token_start, LexerState,
};
use crate::scan::{
    is_text_stop, lemma_find_byte, lemma_run_end, lemma_run_end_bounds, lemma_text_end, run_end,
    ASTERISK, BACKTICK, DASH, HASH, LINE_FEED, SPACE,
};
use crate::token::{heading_token, SpecToken};
use vstd::prelude::*;

verus! {

/// `count` times the byte `byte`.
pub open spec fn run_of(byte: u8, count: nat) -> Seq<u8> {
    Seq::new(count, |i: int| byte)
}

/// `bytes` hold no heading, code or emphasis marker, no line break and no
/// end sentinel.
pub open spec fn is_plain(bytes: Seq<u8>) -> bool {
    forall|i: int| 0 <= i < bytes.len() ==> !is_text_stop(#[trigger] bytes[i])
}

/// `bytes` begin neither with a space nor with a list marker.
pub open spec fn begins_text(bytes: Seq<u8>) -> bool {
    bytes.len() > 0 ==> bytes[0] != SPACE && bytes[0] != DASH
}

/// At the end of the document the lexer returns the end token.
pub proof fn lemma_lex_end(state: LexerState)
    requires
        state.position == state.input.len(),
    ensures
        lex_step(state) == (SpecToken::EndOfFile, state),
        lex_from(state) == seq![SpecToken::EndOfFile],
{
    assert(token_start(state.input, state.position) == state.position);
}

/// Text reaches from where it begins to the next heading, code or emphasis
/// marker, line break or end sentinel.
pub proof fn lemma_lex_text(state: LexerState, end: int)
    requires
        0 <= state.position < end <= state.input.len(),
        forall|i: int| state.position <= i < end ==> !is_text_stop(#[trigger] state.input[i]),
        end == state.input.len() || is_text_stop(state.input[end]),
        state.input[state.position] != DASH,
        at_line_start(state.input, state.position) ==> state.input[state.position] != SPACE,
    ensures
        lex_step(state) == (
            SpecToken::Text(text_of(state.input.subrange(state.position, end))),
            state.at(end),
        ),
{
    let input = state.input;
    let at = state.position;
    assert(token_start(input, at) == at);
    assert(!is_text_stop(input[at]));
    lemma_text_end(input, at, end);
}

/// A heading marker is the whole run of `#` and the spaces behind it.
pub proof fn lemma_lex_heading(state: LexerState, hashes: int, end: int)
    requires
        0 <= state.position < hashes <= end <= state.input.len(),
        forall|i: int| state.position <= i < hashes ==> state.input[i] == HASH,
        forall|i: int| hashes <= i < end ==> state.input[i] == SPACE,
        hashes == state.input.len() || state.input[hashes] != HASH,
        end == state.input.len() || state.input[end] != SPACE,
    ensures
        lex_step(state) == (heading_token(hashes - state.position), state.at(end)),
{
    let input = state.input;
    let at = state.position;
    assert(token_start(input, at) == at);
    lemma_run_end(input, at, HASH, hashes);
    lemma_run_end(input, hashes, SPACE, end);
}

/// A list marker behind `spaces` spaces at the start of a line is a list item
/// of depth `spaces / 2`; elsewhere it is a list item of depth zero. The
/// marker takes the `-` and the byte behind it.
pub proof fn lemma_lex_bullet(state: LexerState, spaces: nat)
    requires
        0 <= state.position,
        state.position + spaces < state.input.len(),
        spaces > 0 ==> at_line_start(state.input, state.position),
        forall|i: int|
            state.position <= i < state.position + spaces ==> state.input[i] == SPACE,
        state.input[state.position + spaces] == DASH,
    ensures
        lex_step(state) == (
            SpecToken::UnorderedBullet(spaces / 2),
            state.at(
                if state.position + spaces + 2 <= state.input.len() {
                    state.position + spaces + 2
                } else {
                    state.input.len() as int
                },
            ),
        ),
{
    lemma_run_end(state.input, state.position, SPACE, state.position + spaces);
}

/// A single backtick opens inline code, which reaches to the next backtick.
/// That backtick is taken with it.
pub proof fn lemma_lex_code(state: LexerState, close: int)
    requires
        0 <= state.position < close <= state.input.len(),
        at_line_start(state.input, state.position) ==> state.input[state.position] != SPACE,
        state.input[state.position] == BACKTICK,
        forall|i: int| state.position < i < close ==> state.input[i] != BACKTICK,
        close < state.input.len() ==> state.input[close] == BACKTICK,
        close > state.position + 1 || close == state.input.len(),
    ensures
        lex_step(state) == (
            SpecToken::Code(text_of(state.input.subrange(state.position + 1, close))),
            state.at(
                if close < state.input.len() {
                    close + 1
                } else {
                    close
                },
            ),
        ),
{
    let input = state.input;
    let at = state.position;
    assert(token_start(input, at) == at);
    lemma_run_end(input, at, BACKTICK, at + 1);
    lemma_find_byte(input, at + 1, BACKTICK, close);
}

/// Three backticks open a fenced block. The rest of their line is the
/// language tag, the body reaches from the next line to the next backtick,
/// and the run of backticks there closes the block.
pub proof fn lemma_lex_fence(state: LexerState, line_end: int, close: int, end: int)
    requires
        0 <= state.position,
        state.position + 3 <= line_end < close <= end <= state.input.len(),
        forall|i: int| state.position <= i < state.position + 3 ==> state.input[i] == BACKTICK,
        forall|i: int| state.position + 3 <= i < line_end ==> state.input[i] != LINE_FEED,
        state.input[state.position + 3] != BACKTICK,
        state.input[line_end] == LINE_FEED,
        forall|i: int| line_end < i < close ==> state.input[i] != BACKTICK,
        forall|i: int| close <= i < end ==> state.input[i] == BACKTICK,
        close < end || end == state.input.len(),
        end < state.input.len() ==> state.input[end] != BACKTICK,
    ensures
        lex_step(state) == (
            SpecToken::CodeBlock(
                language_of(state.input.subrange(state.position + 3, line_end)),
                text_of(state.input.subrange(line_end + 1, close)),
            ),
            state.at(end),
        ),
{
    let input = state.input;
    let at = state.position;
    assert(token_start(input, at) == at);
    lemma_run_end(input, at, BACKTICK, at + 3);
    lemma_find_byte(input, at + 3, LINE_FEED, line_end);
    lemma_find_byte(input, line_end + 1, BACKTICK, close);
    lemma_run_end(input, close, BACKTICK, end);
}

/// A run of line breaks is one token: a line break where it is a single
/// one, a paragraph break where there are more.
pub proof fn lemma_lex_line_breaks(state: LexerState, end: int)
    requires
        0 <= state.position < end <= state.input.len(),
        forall|i: int| state.position <= i < end ==> state.input[i] == LINE_FEED,
        end == state.input.len() || state.input[end] != LINE_FEED,
    ensures
        lex_step(state) == (
            if end - state.position == 1 {
                SpecToken::Newline
            } else {
                SpecToken::DoubleNewline
            },
            state.at(end),
        ),
{
    let input = state.input;
    let at = state.position;
    assert(token_start(input, at) == at);
    lemma_run_end(input, at, LINE_FEED, end);
}

/// A document of one to six `#`, a space and plain text is one heading of
/// that level around the text.
pub proof fn lemma_heading_bytes(level: nat, text: Seq<u8>)
    requires
        1 <= level <= 6,
        is_plain(text),
        begins_text(text),
    ensures
        lex(run_of(HASH, level) + seq![SPACE] + text) == if text.len() == 0 {
            seq![heading_token(level as int), SpecToken::EndOfFile]
        } else {
            seq![heading_token(level as int), SpecToken::Text(text_of(text)), SpecToken::EndOfFile]
        },
        render(lex(run_of(HASH, level) + seq![SPACE] + text)) == Ok::<Seq<char>, RenderError>(
            heading_start_tag(level as int) + text_of(text) + heading_end_tag(level as int),
        ),
{
    let input = run_of(HASH, level) + seq![SPACE] + text;
    let start = LexerState::start(input);
    let hashes = level as int;
    let heading = heading_token(hashes);
    let end = SpecToken::EndOfFile;
    lemma_lex_heading(start, hashes, hashes + 1);
    let behind = start.at(hashes + 1);
    assert(lex_from(start) == seq![heading] + lex_from(behind));
    if text.len() == 0 {
        lemma_lex_end(behind);
        assert(lex(input) =~= seq![heading, end]);
        assert(text_of(text) =~= Seq::<char>::empty()) by {
            reveal_with_fuel(vstd::utf8::decode_utf8, 1);
        }
        lemma_render_heading_alone(hashes);
        assert(heading_start_tag(level as int) + text_of(text) =~= heading_start_tag(
            level as int,
        ));
        assert(!has_illegal(lex(input)));
    } else {
        let words = SpecToken::Text(text_of(text));
        assert forall|i: int| hashes + 1 <= i < input.len() implies !is_text_stop(
            #[trigger] input[i],
        ) by {
            assert(input[i] == text[i - hashes - 1]);
        }
        lemma_lex_text(behind, input.len() as int);
        assert(input.subrange(hashes + 1, input.len() as int) =~= text);
        let last = start.at(input.len() as int);
        lemma_lex_end(last);
        assert(lex_from(behind) == seq![words] + lex_from(last));
        assert(lex(input) =~= seq![heading, words, end]);
        lemma_render_heading(hashes, text_of(text));
        assert(!has_illegal(lex(input)));
    }
}

/// A document that begins with more than six `#` has an illegal token first,
/// and no rendering.
pub proof fn lemma_long_heading_bytes(input: Seq<u8>)
    requires
        input.len() > 6,
        forall|i: int| 0 <= i <= 6 ==> input[i] == HASH,
    ensures
        lex(input)[0] is Illegal,
        render(lex(input)) == Err::<Seq<char>, RenderError>(RenderError::IllegalToken),
{
    let start = LexerState::start(input);
    lemma_run_end_bounds(input, 0, HASH);
    let hashes = run_end(input, 0, HASH);
    if hashes <= 6 {
        assert(input[hashes] == HASH);
    }
    assert(token_start(input, 0) == 0);
    assert(lex_step(start).0 == heading_token(hashes));
    assert(lex_from(start)[0] is Illegal);
}

/// Two plain texts with two or more line breaks between them are two
/// paragraphs.
pub proof fn lemma_paragraphs_bytes(first: Seq<u8>, breaks: nat, second: Seq<u8>)
    requires
        first.len() > 0,
        second.len() > 0,
        is_plain(first),
        is_plain(second),
        first[0] != DASH,
        begins_text(second),
        breaks >= 2,
    ensures
        lex(first + run_of(LINE_FEED, breaks) + second) == seq![
            SpecToken::Text(text_of(first)),
            SpecToken::DoubleNewline,
            SpecToken::Text(text_of(second)),
            SpecToken::EndOfFile,
        ],
        render(lex(first + run_of(LINE_FEED, breaks) + second)) == Ok::<Seq<char>, RenderError>(
            "<p>"@ + text_of(first) + "</p>"@ + "<p>"@ + text_of(second) + "</p>"@,
        ),
{
    let input = first + run_of(LINE_FEED, breaks) + second;
    lemma_two_texts(first, breaks, second);
    lemma_render_paragraphs(text_of(first), text_of(second));
    assert(!has_illegal(lex(input)));
}

/// Two plain texts with one line break between them are one paragraph, in
/// which a space stands for the line break.
pub proof fn lemma_soft_break_bytes(first: Seq<u8>, second: Seq<u8>)
    requires
        first.len() > 0,
        second.len() > 0,
        is_plain(first),
        is_plain(second),
        first[0] != DASH,
        begins_text(second),
    ensures
        lex(first + seq![LINE_FEED] + second) == seq![
            SpecToken::Text(text_of(first)),
            SpecToken::Newline,
            SpecToken::Text(text_of(second)),
            SpecToken::EndOfFile,
        ],
        render(lex(first + seq![LINE_FEED] + second)) == Ok::<Seq<char>, RenderError>(
            "<p>"@ + text_of(first) + " "@ + text_of(second) + "</p>"@,
        ),
{
    let input = first + seq![LINE_FEED] + second;
    assert(run_of(LINE_FEED, 1) =~= seq![LINE_FEED]);
    lemma_two_texts(first, 1, second);
    lemma_render_soft_break(text_of(first), text_of(second));
    assert(!has_illegal(lex(input)));
}

/// The tokens of two plain texts with line breaks between them.
proof fn lemma_two_texts(first: Seq<u8>, breaks: nat, second: Seq<u8>)
    requires
        first.len() > 0,
        second.len() > 0,
        is_plain(first),
        is_plain(second),
        first[0] != DASH,
        begins_text(second),
        breaks >= 1,
    ensures
        lex(first + run_of(LINE_FEED, breaks) + second) == seq![
            SpecToken::Text(text_of(first)),
            if breaks == 1 {
                SpecToken::Newline
            } else {
                SpecToken::DoubleNewline
            },
            SpecToken::Text(text_of(second)),
            SpecToken::EndOfFile,
        ],
{
    let input = first + run_of(LINE_FEED, breaks) + second;
    let start = LexerState::start(input);
    let gap = first.len() as int;
    let resume = gap + breaks;
    let end = input.len() as int;
    assert forall|i: int| 0 <= i < gap implies !is_text_stop(#[trigger] input[i]) by {
        assert(input[i] == first[i]);
    }
    assert(input[gap] == LINE_FEED);
    lemma_lex_text(start, gap);
    assert(input.subrange(0, gap) =~= first);
    let broken = start.at(gap);
    lemma_lex_line_breaks(broken, resume);
    let resumed = start.at(resume);
    assert forall|i: int| resume <= i < end implies !is_text_stop(#[trigger] input[i]) by {
        assert(input[i] == second[i - resume]);
    }
    assert(input[resume] == second[0]);
    lemma_lex_text(resumed, end);
    assert(input.subrange(resume, end) =~= second);
    let last = start.at(end);
    lemma_lex_end(last);
    let separator = lex_step(broken).0;
    assert(lex_from(resumed) == seq![SpecToken::Text(text_of(second))] + lex_from(last));
    assert(lex_from(broken) == seq![separator] + lex_from(resumed));
    assert(lex_from(start) == seq![SpecToken::Text(text_of(first))] + lex_from(broken));
    assert(lex(input) =~= seq![
        SpecToken::Text(text_of(first)),
        separator,
        SpecToken::Text(text_of(second)),
        SpecToken::EndOfFile,
    ]);
}

/// A fence of three backticks, a language tag, a line break, a body without
/// backticks and a closing fence are one fenced block: the body is kept byte
/// for byte, line breaks included.
pub proof fn lemma_fenced_block_bytes(tag: Seq<u8>, body: Seq<u8>)
    requires
        forall|i: int| 0 <= i < tag.len() ==> tag[i] != LINE_FEED,
        tag.len() > 0 ==> tag[0] != BACKTICK,
        forall|i: int| 0 <= i < body.len() ==> body[i] != BACKTICK,
    ensures
        lex(run_of(BACKTICK, 3) + tag + seq![LINE_FEED] + body + run_of(BACKTICK, 3)) == seq![
            SpecToken::CodeBlock(language_of(tag), text_of(body)),
            SpecToken::EndOfFile,
        ],
        render(lex(run_of(BACKTICK, 3) + tag + seq![LINE_FEED] + body + run_of(BACKTICK, 3)))
            == Ok::<Seq<char>, RenderError>(code_block_html(language_of(tag), text_of(body))),
{
    let input = run_of(BACKTICK, 3) + tag + seq![LINE_FEED] + body + run_of(BACKTICK, 3);
    let start = LexerState::start(input);
    let line_end = 3 + tag.len() as int;
    let close = line_end + 1 + body.len() as int;
    let end = input.len() as int;
    assert forall|i: int| 3 <= i < line_end implies input[i] != LINE_FEED by {
        assert(input[i] == tag[i - 3]);
    }
    assert forall|i: int| line_end < i < close implies input[i] != BACKTICK by {
        assert(input[i] == body[i - line_end - 1]);
    }
    lemma_lex_fence(start, line_end, close, end);
    assert(input.subrange(3, line_end) =~= tag);
    assert(input.subrange(line_end + 1, close) =~= body);
    let block = SpecToken::CodeBlock(language_of(tag), text_of(body));
    lemma_lex_end(start.at(end));
    assert(lex(input) =~= seq![block, SpecToken::EndOfFile]);
    lemma_render_code_block(language_of(tag), text_of(body));
    assert(!has_illegal(lex(input)));
}

/// Code between two backticks is one inline code span, whatever it holds
/// but a backtick.
pub proof fn lemma_code_bytes(code: Seq<u8>)
    requires
        code.len() > 0,
        forall|i: int| 0 <= i < code.len() ==> code[i] != BACKTICK,
    ensures
        lex(seq![BACKTICK] + code + seq![BACKTICK]) == seq![
            SpecToken::Code(text_of(code)),
            SpecToken::EndOfFile,
        ],
        render(lex(seq![BACKTICK] + code + seq![BACKTICK])) == Ok::<Seq<char>, RenderError>(
            "<p>"@ + "<code>"@ + text_of(code) + "</code>"@ + "</p>"@,
        ),
{
    let input = seq![BACKTICK] + code + seq![BACKTICK];
    let start = LexerState::start(input);
    let close = 1 + code.len() as int;
    let end = input.len() as int;
    assert forall|i: int| 0 < i < close implies input[i] != BACKTICK by {
        assert(input[i] == code[i - 1]);
    }
    assert(input[close] == BACKTICK);
    lemma_lex_code(start, close);
    assert(input.subrange(1, close) =~= code);
    lemma_lex_end(start.at(end));
    let span = SpecToken::Code(text_of(code));
    assert(lex(input) =~= seq![span, SpecToken::EndOfFile]);
    lemma_render_code(text_of(code));
    assert(!has_illegal(lex(input)));
}

/// `marks` are the delimiter of bold text, or that of italic text.
pub open spec fn emphasis_marks(bold: bool) -> Seq<u8> {
    if bold {
        seq![ASTERISK, ASTERISK]
    } else {
        seq![ASTERISK]
    }
}

/// A plain text and a second one between two delimiters of the same kind are
/// one paragraph in which the second text is emphasised.
pub proof fn lemma_emphasis_bytes(first: Seq<u8>, second: Seq<u8>, bold: bool)
    requires
        first.len() > 0,
        second.len() > 0,
        is_plain(first),
        is_plain(second),
        first[0] != DASH,
        second[0] != DASH,
    ensures
        lex(first + emphasis_marks(bold) + second + emphasis_marks(bold)) == seq![
            SpecToken::Text(text_of(first)),
            emphasis_token(bold),
            SpecToken::Text(text_of(second)),
            emphasis_token(bold),
            SpecToken::EndOfFile,
        ],
        render(lex(first + emphasis_marks(bold) + second + emphasis_marks(bold))) == Ok::<
            Seq<char>,
            RenderError,
        >(
            "<p>"@ + text_of(first) + emphasis_start_tag(bold) + text_of(second)
                + emphasis_end_tag(bold) + "</p>"@,
        ),
{
    let marks = emphasis_marks(bold);
    let input = first + marks + second + marks;
    let start = LexerState::start(input);
    let width = marks.len() as int;
    let opens = first.len() as int;
    let inside = opens + width;
    let closes = inside + second.len();
    let end = input.len() as int;
    let mark = emphasis_token(bold);
    assert(end == closes + width);
    assert forall|i: int| 0 <= i < opens implies !is_text_stop(#[trigger] input[i]) by {
        assert(input[i] == first[i]);
    }
    assert(input[opens] == ASTERISK);
    lemma_lex_text(start, opens);
    assert(input.subrange(0, opens) =~= first);
    let opening = start.at(opens);
    assert(input[opens - 1] == first[opens - 1]);
    assert(token_start(input, opens) == opens);
    assert(input[inside] == second[0]);
    let opened = LexerState { position: inside, in_italic: !bold, ..start };
    assert(lex_step(opening) == (mark, opened));
    assert forall|i: int| inside <= i < closes implies !is_text_stop(#[trigger] input[i]) by {
        assert(input[i] == second[i - inside]);
    }
    assert(input[closes] == ASTERISK);
    lemma_lex_text(opened, closes);
    assert(input.subrange(inside, closes) =~= second);
    let closing = opened.at(closes);
    assert(input[closes - 1] == second[closes - 1 - inside]);
    assert(token_start(input, closes) == closes);
    let closed = start.at(end);
    assert(lex_step(closing) == (mark, closed));
    lemma_lex_end(closed);
    assert(lex_from(closing) == seq![mark] + lex_from(closed));
    assert(lex_from(opened) == seq![SpecToken::Text(text_of(second))] + lex_from(closing));
    assert(lex_from(opening) == seq![mark] + lex_from(opened));
    assert(lex_from(start) == seq![SpecToken::Text(text_of(first))] + lex_from(opening));
    assert(lex(input) =~= seq![
        SpecToken::Text(text_of(first)),
        mark,
        SpecToken::Text(text_of(second)),
        mark,
        SpecToken::EndOfFile,
    ]);
    lemma_render_emphasis(text_of(first), text_of(second), bold);
    assert(!has_illegal(lex(input)));
}

/// Two list items on two lines, the second behind `indent` spaces, are a
/// list in which the second item stands `indent / 2` lists deeper than the
/// first. Every list that was opened is closed at the end.
pub proof fn lemma_nested_item_bytes(first: Seq<u8>, indent: nat, second: Seq<u8>)
    requires
        first.len() > 0,
        second.len() > 0,
        is_plain(first),
        is_plain(second),
        first[0] != DASH,
        second[0] != DASH,
    ensures
        lex(
            seq![DASH, SPACE] + first + seq![LINE_FEED] + run_of(SPACE, indent) + seq![DASH, SPACE]
                + second,
        ) == seq![
            SpecToken::UnorderedBullet(0),
            SpecToken::Text(text_of(first)),
            SpecToken::Newline,
            SpecToken::UnorderedBullet(indent / 2),
            SpecToken::Text(text_of(second)),
            SpecToken::EndOfFile,
        ],
        render(
            lex(
                seq![DASH, SPACE] + first + seq![LINE_FEED] + run_of(SPACE, indent) + seq![
                    DASH,
                    SPACE,
                ] + second,
            ),
        ) == Ok::<Seq<char>, RenderError>(
            "<ul>"@ + "<li>"@ + text_of(first) + "</li>"@ + repeated("<ul>"@, indent / 2) + "<li>"@
                + text_of(second) + "</li>"@ + repeated("</ul>"@, indent / 2 + 1),
        ),
{
    let input = seq![DASH, SPACE] + first + seq![LINE_FEED] + run_of(SPACE, indent) + seq![
        DASH,
        SPACE,
    ] + second;
    let start = LexerState::start(input);
    let line_end = 2 + first.len() as int;
    let next_line = line_end + 1;
    let marker = next_line + indent;
    let item = marker + 2;
    let end = input.len() as int;
    assert(end == item + second.len());
    assert(input[0] == DASH);
    lemma_lex_bullet(start, 0);
    let in_first = start.at(2);
    assert(input[1] == SPACE);
    assert forall|i: int| 2 <= i < line_end implies !is_text_stop(#[trigger] input[i]) by {
        assert(input[i] == first[i - 2]);
    }
    assert(input[2] == first[0]);
    assert(input[line_end] == LINE_FEED);
    lemma_lex_text(in_first, line_end);
    assert(input.subrange(2, line_end) =~= first);
    let at_break = start.at(line_end);
    assert(input[next_line] != LINE_FEED);
    lemma_lex_line_breaks(at_break, next_line);
    let at_indent = start.at(next_line);
    assert(input[marker] == DASH);
    lemma_lex_bullet(at_indent, indent);
    let in_second = start.at(item);
    assert(input[item - 1] == SPACE);
    assert forall|i: int| item <= i < end implies !is_text_stop(#[trigger] input[i]) by {
        assert(input[i] == second[i - item]);
    }
    assert(input[item] == second[0]);
    lemma_lex_text(in_second, end);
    assert(input.subrange(item, end) =~= second);
    let last = start.at(end);
    lemma_lex_end(last);
    let deeper = SpecToken::UnorderedBullet(indent / 2);
    assert(lex_from(in_second) == seq![SpecToken::Text(text_of(second))] + lex_from(last));
    assert(lex_from(at_indent) == seq![deeper] + lex_from(in_second));
    assert(lex_from(at_break) == seq![SpecToken::Newline] + lex_from(at_indent));
    assert(lex_from(in_first) == seq![SpecToken::Text(text_of(first))] + lex_from(at_break));
    assert(lex_from(start) == seq![SpecToken::UnorderedBullet(0)] + lex_from(in_first));
    assert(lex(input) =~= seq![
        SpecToken::UnorderedBullet(0),
        SpecToken::Text(text_of(first)),
        SpecToken::Newline,
        deeper,
        SpecToken::Text(text_of(second)),
        SpecToken::EndOfFile,
    ]);
    lemma_render_nested_item(text_of(first), indent / 2, text_of(second));
    assert(!has_illegal(lex(input)));
}

} // verus!
