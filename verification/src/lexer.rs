//! The lexer: from the bytes of a document to its tokens, one token per call.
//!
//! The rules are stated as spec functions on a [`LexerState`]; the executable
//! [`Lexer`] follows them token by token.

use crate::scan::{
    byte_at, find_byte, is_text_stop, lemma_find_byte_bounds, lemma_run_end_bounds,
    lemma_text_end_bounds, run_end, text_end, ASTERISK, BACKTICK, CARRIAGE_RETURN, DASH, HASH,
    LINE_FEED, NUL, SPACE,
};
pub use crate::token::{heading_token, SpecToken, Token};
use vstd::prelude::*;
use vstd::slice::{slice_subrange, slice_to_vec};
use vstd::utf8::{decode_utf8, encode_utf8, valid_utf8};

verus! {

/// What a lexer holds: the document, the cursor, and whether an italic span is
/// open at the cursor.
pub struct LexerState {
    pub input: Seq<u8>,
    pub position: int,
    pub in_italic: bool,
}

impl LexerState {
    /// The state of a lexer that has read nothing of `input` yet.
    pub open spec fn start(input: Seq<u8>) -> LexerState {
        LexerState { input, position: 0, in_italic: false }
    }

    /// This state with the cursor moved to `position`.
    pub open spec fn at(self, position: int) -> LexerState {
        LexerState { position, ..self }
    }

    /// The cursor stands inside the document or at its end.
    pub open spec fn in_bounds(self) -> bool {
        0 <= self.position <= self.input.len()
    }
}

/// `bytes` without its carriage returns.
pub open spec fn without_carriage_returns(bytes: Seq<u8>) -> Seq<u8>
    decreases bytes.len(),
{
    if bytes.len() == 0 {
        bytes
    } else if bytes.last() == CARRIAGE_RETURN {
        without_carriage_returns(bytes.drop_last())
    } else {
        without_carriage_returns(bytes.drop_last()).push(bytes.last())
    }
}

/// The text that `bytes` encode; the empty text where they are not UTF-8.
pub open spec fn text_of(bytes: Seq<u8>) -> Seq<char> {
    if valid_utf8(bytes) {
        decode_utf8(bytes)
    } else {
        Seq::empty()
    }
}

/// The language tag that the rest of a fence line holds: none where the line
/// is empty or not UTF-8.
pub open spec fn language_of(bytes: Seq<u8>) -> Option<Seq<char>> {
    if bytes.len() > 0 && valid_utf8(bytes) {
        Some(decode_utf8(bytes))
    } else {
        None
    }
}

/// The nesting depth of a list item behind `leading_spaces` spaces: one level
/// for every two spaces.
pub open spec fn depth_of_indent(leading_spaces: nat) -> nat {
    leading_spaces / 2
}

/// Whether the byte just before `position` is a line break.
pub open spec fn at_line_start(input: Seq<u8>, position: int) -> bool {
    0 < position <= input.len() && input[position - 1] == LINE_FEED
}

/// Where the next token begins: directly after a line break, behind the
/// spaces that lead the line; elsewhere at the cursor.
pub open spec fn token_start(input: Seq<u8>, position: int) -> int {
    if at_line_start(input, position) {
        run_end(input, position, SPACE)
    } else {
        position
    }
}

/// A heading: the run of `#` at `at` and the spaces behind it. A run of one
/// to six is a heading of that level, a longer one is illegal.
pub open spec fn lex_heading(state: LexerState, at: int) -> (SpecToken, LexerState) {
    let hashes = run_end(state.input, at, HASH);
    (heading_token(hashes - at), state.at(run_end(state.input, hashes, SPACE)))
}

/// A list item: the `-` at `at` and the byte behind it. Its depth comes from
/// the spaces between the cursor and `at`.
pub open spec fn lex_bullet(state: LexerState, at: int) -> (SpecToken, LexerState) {
    let end = if at + 2 <= state.input.len() {
        at + 2
    } else {
        state.input.len() as int
    };
    (SpecToken::UnorderedBullet(depth_of_indent((at - state.position) as nat)), state.at(end))
}

/// Emphasis: inside an italic span a `*` closes it; elsewhere `**` is bold and
/// a single `*` opens an italic span.
pub open spec fn lex_emphasis(state: LexerState, at: int) -> (SpecToken, LexerState) {
    if state.in_italic {
        (SpecToken::Italic, LexerState { position: at + 1, in_italic: false, ..state })
    } else if byte_at(state.input, at + 1) == ASTERISK {
        (SpecToken::Bold, state.at(at + 2))
    } else {
        (SpecToken::Italic, LexerState { position: at + 1, in_italic: true, ..state })
    }
}

/// An inline code span whose contents begin at `at`: they reach to the next
/// backtick, which is consumed, or to the end of the document.
pub open spec fn lex_code(state: LexerState, at: int) -> (SpecToken, LexerState) {
    let close = find_byte(state.input, at, BACKTICK);
    let end = if close < state.input.len() {
        close + 1
    } else {
        close
    };
    (SpecToken::Code(text_of(state.input.subrange(at, close))), state.at(end))
}

/// A fenced block whose fence line continues at `at`: the rest of that line is
/// the language tag, one line break is skipped, the body reaches to the next
/// backtick, and the run of backticks there closes the block.
pub open spec fn lex_fence(state: LexerState, at: int) -> (SpecToken, LexerState) {
    let line_end = find_byte(state.input, at, LINE_FEED);
    let body = if line_end < state.input.len() {
        line_end + 1
    } else {
        line_end
    };
    let close = find_byte(state.input, body, BACKTICK);
    (
        SpecToken::CodeBlock(
            language_of(state.input.subrange(at, line_end)),
            text_of(state.input.subrange(body, close)),
        ),
        state.at(run_end(state.input, close, BACKTICK)),
    )
}

/// A run of backticks at `at`: one opens an inline code span, three open a
/// fenced block, any other number is illegal.
pub open spec fn lex_ticks(state: LexerState, at: int) -> (SpecToken, LexerState) {
    let ticks = run_end(state.input, at, BACKTICK);
    if ticks - at == 1 {
        lex_code(state, ticks)
    } else if ticks - at == 3 {
        lex_fence(state, ticks)
    } else {
        (SpecToken::Illegal, state.at(ticks))
    }
}

/// The run of line breaks at `at`: one is a line break, more are a paragraph
/// break.
pub open spec fn lex_line_breaks(state: LexerState, at: int) -> (SpecToken, LexerState) {
    let end = run_end(state.input, at, LINE_FEED);
    (
        if end - at == 1 {
            SpecToken::Newline
        } else {
            SpecToken::DoubleNewline
        },
        state.at(end),
    )
}

/// Text: the bytes from `at` up to the next heading, code or emphasis marker,
/// line break or end sentinel.
pub open spec fn lex_text(state: LexerState, at: int) -> (SpecToken, LexerState) {
    let end = text_end(state.input, at);
    (SpecToken::Text(text_of(state.input.subrange(at, end))), state.at(end))
}

/// The next token of a document and the state behind it.
///
/// Neither `#` nor `-` has to stand at the start of a line to be a marker: a
/// token that begins with one is a heading or a list item wherever the
/// previous token ended.
pub open spec fn lex_step(state: LexerState) -> (SpecToken, LexerState) {
    let at = token_start(state.input, state.position);
    let byte = byte_at(state.input, at);
    if byte == HASH {
        lex_heading(state, at)
    } else if byte == DASH {
        lex_bullet(state, at)
    } else if byte == ASTERISK {
        lex_emphasis(state, at)
    } else if byte == BACKTICK {
        lex_ticks(state, at)
    } else if byte == LINE_FEED {
        lex_line_breaks(state, at)
    } else if byte == NUL {
        (SpecToken::EndOfFile, state.at(at))
    } else {
        lex_text(state, at)
    }
}

/// One where `bytes` are not UTF-8, so that the run which they make comes
/// out empty; zero where they are.
pub open spec fn lost_run(bytes: Seq<u8>) -> nat {
    if valid_utf8(bytes) {
        0
    } else {
        1
    }
}

/// The runs of an inline code span that are not UTF-8: its contents.
pub open spec fn code_losses(state: LexerState, at: int) -> nat {
    lost_run(state.input.subrange(at, find_byte(state.input, at, BACKTICK)))
}

/// The runs of a fenced block that are not UTF-8: the language tag, the
/// body, or both.
pub open spec fn fence_losses(state: LexerState, at: int) -> nat {
    let line_end = find_byte(state.input, at, LINE_FEED);
    let body = if line_end < state.input.len() {
        line_end + 1
    } else {
        line_end
    };
    let close = find_byte(state.input, body, BACKTICK);
    lost_run(state.input.subrange(at, line_end)) + lost_run(state.input.subrange(body, close))
}

/// How many runs of the next token are not UTF-8 and come out empty: the
/// text of a text token, the contents of inline code, the language tag and
/// the body of a fenced block. A caller that keeps a log has one entry to
/// make for each.
pub open spec fn undecodable_runs(state: LexerState) -> nat {
    let at = token_start(state.input, state.position);
    let byte = byte_at(state.input, at);
    if byte == BACKTICK {
        let ticks = run_end(state.input, at, BACKTICK);
        if ticks - at == 1 {
            code_losses(state, ticks)
        } else if ticks - at == 3 {
            fence_losses(state, ticks)
        } else {
            0
        }
    } else if byte == HASH || byte == DASH || byte == ASTERISK || byte == LINE_FEED || byte
        == NUL {
        0
    } else {
        lost_run(state.input.subrange(at, text_end(state.input, at)))
    }
}

/// Every token but the last moves the cursor forward, and the cursor never
/// leaves the document.
pub proof fn lemma_step_advances(state: LexerState)
    ensures
        lex_step(state).1.input == state.input,
        state.in_bounds() ==> lex_step(state).1.in_bounds(),
        state.in_bounds() ==> state.position <= lex_step(state).1.position,
        !(lex_step(state).0 is EndOfFile) ==> state.in_bounds() && state.position < lex_step(
            state,
        ).1.position <= state.input.len(),
{
    let input = state.input;
    let len = input.len() as int;
    if at_line_start(input, state.position) {
        lemma_run_end_bounds(input, state.position, SPACE);
    }
    let at = token_start(input, state.position);
    let byte = byte_at(input, at);
    if byte != NUL {
        assert(0 <= at < len);
        if byte == HASH {
            lemma_run_end_bounds(input, at, HASH);
            lemma_run_end_bounds(input, run_end(input, at, HASH), SPACE);
        } else if byte == BACKTICK {
            lemma_run_end_bounds(input, at, BACKTICK);
            let ticks = run_end(input, at, BACKTICK);
            lemma_find_byte_bounds(input, ticks, BACKTICK);
            lemma_find_byte_bounds(input, ticks, LINE_FEED);
            let line_end = find_byte(input, ticks, LINE_FEED);
            let body = if line_end < len {
                line_end + 1
            } else {
                line_end
            };
            lemma_find_byte_bounds(input, body, BACKTICK);
            lemma_run_end_bounds(input, find_byte(input, body, BACKTICK), BACKTICK);
        } else if byte == LINE_FEED {
            lemma_run_end_bounds(input, at, LINE_FEED);
        } else if byte != DASH && byte != ASTERISK {
            lemma_text_end_bounds(input, at);
        }
    }
}

/// The tokens of a document from `state` on, up to and with the end token.
pub open spec fn lex_from(state: LexerState) -> Seq<SpecToken>
    decreases state.input.len() - state.position,
    via lex_from_terminates
{
    let (token, next) = lex_step(state);
    if token is EndOfFile {
        seq![token]
    } else {
        seq![token] + lex_from(next)
    }
}

#[via_fn]
proof fn lex_from_terminates(state: LexerState) {
    lemma_step_advances(state);
}

/// How many runs of the tokens from `state` on are not UTF-8.
pub open spec fn undecodable_runs_from(state: LexerState) -> nat
    decreases state.input.len() - state.position,
    via undecodable_runs_from_terminates
{
    let (token, next) = lex_step(state);
    if token is EndOfFile {
        0
    } else {
        undecodable_runs(state) + undecodable_runs_from(next)
    }
}

#[via_fn]
proof fn undecodable_runs_from_terminates(state: LexerState) {
    lemma_step_advances(state);
}

/// A run that is not UTF-8 is not empty, and the runs of a token do not
/// overlap: a token has no more such runs than it has bytes.
pub proof fn lemma_undecodable_runs_bound(state: LexerState)
    requires
        state.in_bounds(),
    ensures
        undecodable_runs(state) <= 2,
        undecodable_runs(state) <= lex_step(state).1.position - state.position,
        lex_step(state).0 is EndOfFile ==> undecodable_runs(state) == 0,
{
    let input = state.input;
    let len = input.len() as int;
    lemma_step_advances(state);
    if at_line_start(input, state.position) {
        lemma_run_end_bounds(input, state.position, SPACE);
    }
    let at = token_start(input, state.position);
    let byte = byte_at(input, at);
    assert(valid_utf8(Seq::<u8>::empty()));
    if byte == BACKTICK {
        lemma_run_end_bounds(input, at, BACKTICK);
        let ticks = run_end(input, at, BACKTICK);
        lemma_find_byte_bounds(input, ticks, BACKTICK);
        lemma_find_byte_bounds(input, ticks, LINE_FEED);
        let line_end = find_byte(input, ticks, LINE_FEED);
        let body = if line_end < len {
            line_end + 1
        } else {
            line_end
        };
        lemma_find_byte_bounds(input, body, BACKTICK);
        let close = find_byte(input, body, BACKTICK);
        lemma_run_end_bounds(input, close, BACKTICK);
        if ticks - at == 1 {
            let end = find_byte(input, ticks, BACKTICK);
            if end == ticks {
                assert(input.subrange(ticks, end) =~= Seq::<u8>::empty());
            }
        } else if ticks - at == 3 {
            if line_end == ticks {
                assert(input.subrange(ticks, line_end) =~= Seq::<u8>::empty());
            }
            if close == body {
                assert(input.subrange(body, close) =~= Seq::<u8>::empty());
            }
        }
    }
}

/// The tokens of the document `input`.
pub open spec fn lex(input: Seq<u8>) -> Seq<SpecToken> {
    lex_from(LexerState::start(input))
}

/// Once the end token has come, every further step returns it again and
/// leaves the state as it is.
pub proof fn lemma_end_is_final(state: LexerState)
    requires
        lex_step(state).0 is EndOfFile,
    ensures
        lex_step(lex_step(state).1) == lex_step(state),
{
    let at = token_start(state.input, state.position);
    assert(byte_at(state.input, at) == NUL);
    assert(token_start(state.input, at) == at);
}

/// Text is a whole run: the token behind a text token is no text token.
pub proof fn lemma_text_is_maximal(state: LexerState)
    requires
        state.in_bounds(),
        lex_step(state).0 is Text,
    ensures
        !(lex_step(lex_step(state).1).0 is Text),
{
    let input = state.input;
    if at_line_start(input, state.position) {
        lemma_run_end_bounds(input, state.position, SPACE);
    }
    let at = token_start(input, state.position);
    lemma_text_end_bounds(input, at);
    let end = text_end(input, at);
    assert(end > at);
    assert(!is_text_stop(input[end - 1]));
    assert(token_start(input, end) == end);
}

/// A stream of tokens ends with the end token and holds no other end token.
pub proof fn lemma_lex_ends_once(state: LexerState)
    ensures
        lex_from(state).len() >= 1,
        lex_from(state).last() is EndOfFile,
        forall|i: int| 0 <= i < lex_from(state).len() - 1 ==> !(lex_from(state)[i] is EndOfFile),
    decreases state.input.len() - state.position,
{
    lemma_step_advances(state);
    let (token, next) = lex_step(state);
    if !(token is EndOfFile) {
        lemma_lex_ends_once(next);
    }
}

/// No carriage return is left in `without_carriage_returns(bytes)`, and bytes
/// that hold none are left as they are.
pub proof fn lemma_without_carriage_returns(bytes: Seq<u8>)
    ensures
        forall|i: int|
            0 <= i < without_carriage_returns(bytes).len() ==> without_carriage_returns(bytes)[i]
                != CARRIAGE_RETURN,
        (forall|i: int| 0 <= i < bytes.len() ==> bytes[i] != CARRIAGE_RETURN)
            ==> without_carriage_returns(bytes) == bytes,
    decreases bytes.len(),
{
    if bytes.len() > 0 {
        let rest = without_carriage_returns(bytes.drop_last());
        lemma_without_carriage_returns(bytes.drop_last());
        assert forall|i: int| 0 <= i < without_carriage_returns(bytes).len() implies
            without_carriage_returns(bytes)[i] != CARRIAGE_RETURN by {
            if i < rest.len() {
                assert(rest[i] != CARRIAGE_RETURN);
            }
        }
        if forall|i: int| 0 <= i < bytes.len() ==> bytes[i] != CARRIAGE_RETURN {
            assert forall|i: int| 0 <= i < bytes.drop_last().len() implies bytes.drop_last()[i]
                != CARRIAGE_RETURN by {
                assert(bytes.drop_last()[i] == bytes[i]);
            }
            assert(bytes.drop_last().push(bytes.last()) =~= bytes);
        }
    }
}

/// A lexer over one document. It hands out the tokens of the document in
/// order, and the end token from then on.
pub struct Lexer {
    input: Vec<u8>,
    position: usize,
    is_italic: bool,
}

impl View for Lexer {
    type V = LexerState;

    closed spec fn view(&self) -> LexerState {
        LexerState {
            input: self.input@,
            position: self.position as int,
            in_italic: self.is_italic,
        }
    }
}

/// `String::from_utf8`: the string is returned exactly when `bytes` are valid
/// UTF-8, and it then holds the text that they encode.
#[verifier::external_body]
fn string_from_utf8(bytes: Vec<u8>) -> (text: Option<String>)
    ensures
        text is Some <==> valid_utf8(bytes@),
        text matches Some(t) ==> t@ == decode_utf8(bytes@),
{
    match String::from_utf8(bytes) {
        Ok(text) => Some(text),
        Err(_) => None,
    }
}

/// The nesting depth of a list item behind `leading_spaces` spaces.
pub fn indent_depth(leading_spaces: usize) -> (depth: usize)
    ensures
        depth == depth_of_indent(leading_spaces as nat),
{
    leading_spaces / 2
}

fn count_of(lost: bool) -> (count: usize)
    ensures
        count == if lost {
            1nat
        } else {
            0nat
        },
{
    if lost {
        1
    } else {
        0
    }
}

fn is_stop(byte: u8) -> (stop: bool)
    ensures
        stop == is_text_stop(byte),
{
    byte == HASH || byte == BACKTICK || byte == ASTERISK || byte == LINE_FEED || byte == NUL
}

impl Lexer {
    #[verifier::type_invariant]
    spec fn cursor_in_bounds(self) -> bool {
        self.position <= self.input.len()
    }

    /// A lexer at the start of `input`. Carriage returns are dropped from the
    /// document before anything is read.
    pub fn new(input: String) -> (lexer: Lexer)
        ensures
            lexer@ == LexerState::start(without_carriage_returns(encode_utf8(input@))),
    {
        let source = input.as_str().as_bytes();
        let mut bytes: Vec<u8> = Vec::new();
        let mut i: usize = 0;
        while i < source.len()
            invariant
                i <= source.len(),
                bytes@ == without_carriage_returns(source@.take(i as int)),
            decreases source.len() - i,
        {
            let byte = source[i];
            if byte != CARRIAGE_RETURN {
                bytes.push(byte);
            }
            i += 1;
            assert(source@.take(i as int).drop_last() =~= source@.take(i - 1));
        }
        assert(source@.take(i as int) =~= source@);
        Lexer { input: bytes, position: 0, is_italic: false }
    }

    /// The byte at `i`, or the end sentinel past the end of the document.
    fn byte(&self, i: usize) -> (byte: u8)
        ensures
            byte == byte_at(self.input@, i as int),
    {
        if i < self.input.len() {
            self.input[i]
        } else {
            NUL
        }
    }

    fn skip_run(&self, from: usize, byte: u8) -> (end: usize)
        requires
            from <= self.input.len(),
        ensures
            end == run_end(self.input@, from as int, byte),
            from <= end <= self.input.len(),
    {
        let mut end = from;
        while end < self.input.len() && self.input[end] == byte
            invariant
                from <= end <= self.input.len(),
                run_end(self.input@, end as int, byte) == run_end(self.input@, from as int, byte),
            decreases self.input.len() - end,
        {
            end += 1;
        }
        end
    }

    fn find(&self, from: usize, byte: u8) -> (end: usize)
        requires
            from <= self.input.len(),
        ensures
            end == find_byte(self.input@, from as int, byte),
            from <= end <= self.input.len(),
    {
        let mut end = from;
        while end < self.input.len() && self.input[end] != byte
            invariant
                from <= end <= self.input.len(),
                find_byte(self.input@, end as int, byte) == find_byte(
                    self.input@,
                    from as int,
                    byte,
                ),
            decreases self.input.len() - end,
        {
            end += 1;
        }
        end
    }

    fn find_stop(&self, from: usize) -> (end: usize)
        requires
            from <= self.input.len(),
        ensures
            end == text_end(self.input@, from as int),
            from <= end <= self.input.len(),
    {
        let mut end = from;
        while end < self.input.len() && !is_stop(self.input[end])
            invariant
                from <= end <= self.input.len(),
                text_end(self.input@, end as int) == text_end(self.input@, from as int),
            decreases self.input.len() - end,
        {
            end += 1;
        }
        end
    }

    /// The text that the bytes `from..to` encode, and whether they encode none.
    fn text(&self, from: usize, to: usize) -> (found: (String, bool))
        requires
            from <= to <= self.input.len(),
        ensures
            found.0@ == text_of(self.input@.subrange(from as int, to as int)),
            found.1 == !valid_utf8(self.input@.subrange(from as int, to as int)),
    {
        let bytes = slice_to_vec(slice_subrange(self.input.as_slice(), from, to));
        match string_from_utf8(bytes) {
            Some(text) => (text, false),
            None => (String::new(), true),
        }
    }

    /// The language tag that the bytes `from..to` hold, and whether they are
    /// no text.
    fn language(&self, from: usize, to: usize) -> (found: (Option<String>, bool))
        requires
            from <= to <= self.input.len(),
        ensures
            found.0 is Some <==> language_of(
                self.input@.subrange(from as int, to as int),
            ) is Some,
            found.0 matches Some(tag) ==> Some(tag@) == language_of(
                self.input@.subrange(from as int, to as int),
            ),
            found.1 == !valid_utf8(self.input@.subrange(from as int, to as int)),
    {
        if from == to {
            assert(self.input@.subrange(from as int, to as int) =~= Seq::<u8>::empty());
            assert(valid_utf8(Seq::<u8>::empty()));
            (None, false)
        } else {
            match string_from_utf8(slice_to_vec(slice_subrange(self.input.as_slice(), from, to))) {
                Some(tag) => (Some(tag), false),
                None => (None, true),
            }
        }
    }

    fn heading(&self, at: usize) -> (found: (Token, usize))
        requires
            at < self.input.len(),
            self.input@[at as int] == HASH,
        ensures
            found.0@ == lex_heading(self@, at as int).0,
            found.1 == lex_heading(self@, at as int).1.position,
            found.1 <= self.input.len(),
    {
        let hashes = self.skip_run(at, HASH);
        let end = self.skip_run(hashes, SPACE);
        let level = hashes - at;
        let token = if level == 1 {
            Token::Heading1
        } else if level == 2 {
            Token::Heading2
        } else if level == 3 {
            Token::Heading3
        } else if level == 4 {
            Token::Heading4
        } else if level == 5 {
            Token::Heading5
        } else if level == 6 {
            Token::Heading6
        } else {
            Token::Illegal
        };
        (token, end)
    }

    fn code(&self, at: usize) -> (found: (Token, usize, usize))
        requires
            at <= self.input.len(),
        ensures
            found.0@ == lex_code(self@, at as int).0,
            found.1 == lex_code(self@, at as int).1.position,
            found.1 <= self.input.len(),
            found.2 == code_losses(self@, at as int),
    {
        let close = self.find(at, BACKTICK);
        let end = if close < self.input.len() {
            close + 1
        } else {
            close
        };
        let (code, lost) = self.text(at, close);
        (Token::Code(code), end, count_of(lost))
    }

    fn fence(&self, at: usize) -> (found: (Token, usize, usize))
        requires
            at <= self.input.len(),
        ensures
            found.0@ == lex_fence(self@, at as int).0,
            found.1 == lex_fence(self@, at as int).1.position,
            found.1 <= self.input.len(),
            found.2 == fence_losses(self@, at as int),
    {
        let line_end = self.find(at, LINE_FEED);
        let body = if line_end < self.input.len() {
            line_end + 1
        } else {
            line_end
        };
        let close = self.find(body, BACKTICK);
        let end = self.skip_run(close, BACKTICK);
        let (language, language_lost) = self.language(at, line_end);
        let (code, code_lost) = self.text(body, close);
        (Token::CodeBlock(language, code), end, count_of(language_lost) + count_of(code_lost))
    }

    /// The next token of the document. After the end token the lexer stays
    /// where it is and returns the end token again.
    pub fn next_token(&mut self) -> (token: Token)
        ensures
            token@ == lex_step(old(self)@).0,
            final(self)@ == lex_step(old(self)@).1,
    {
        self.next_token_checked().0
    }

    /// The next token of the document, as [`Lexer::next_token`] gives it, and
    /// the number of its runs that were not UTF-8 and came out empty.
    pub fn next_token_checked(&mut self) -> (found: (Token, usize))
        ensures
            found.0@ == lex_step(old(self)@).0,
            final(self)@ == lex_step(old(self)@).1,
            found.1 == undecodable_runs(old(self)@),
            final(self)@.in_bounds(),
            final(self)@.input.len() <= usize::MAX,
    {
        proof {
            use_type_invariant(&*self);
        }
        let len = self.input.len();
        let start = self.position;
        let at = if start > 0 && self.input[start - 1] == LINE_FEED {
            self.skip_run(start, SPACE)
        } else {
            start
        };
        let byte = self.byte(at);
        if byte == HASH {
            let (token, end) = self.heading(at);
            self.position = end;
            (token, 0)
        } else if byte == DASH {
            let depth = indent_depth(at - start);
            self.position = if len - at >= 2 {
                at + 2
            } else {
                len
            };
            (Token::UnorderedBullet(depth), 0)
        } else if byte == ASTERISK {
            if self.is_italic {
                self.position = at + 1;
                self.is_italic = false;
                (Token::Italic, 0)
            } else if self.byte(at + 1) == ASTERISK {
                self.position = at + 2;
                (Token::Bold, 0)
            } else {
                self.position = at + 1;
                self.is_italic = true;
                (Token::Italic, 0)
            }
        } else if byte == BACKTICK {
            let ticks = self.skip_run(at, BACKTICK);
            if ticks - at == 1 {
                let (token, end, lost) = self.code(ticks);
                self.position = end;
                (token, lost)
            } else if ticks - at == 3 {
                let (token, end, lost) = self.fence(ticks);
                self.position = end;
                (token, lost)
            } else {
                self.position = ticks;
                (Token::Illegal, 0)
            }
        } else if byte == LINE_FEED {
            let end = self.skip_run(at, LINE_FEED);
            self.position = end;
            if end - at == 1 {
                (Token::Newline, 0)
            } else {
                (Token::DoubleNewline, 0)
            }
        } else if byte == NUL {
            self.position = at;
            (Token::EndOfFile, 0)
        } else {
            let end = self.find_stop(at);
            let (text, lost) = self.text(at, end);
            self.position = end;
            (Token::Text(text), count_of(lost))
        }
    }
}

} // verus!
