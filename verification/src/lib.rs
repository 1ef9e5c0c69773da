//! A small Markdown dialect rendered to an HTML fragment.
//!
//! A document is lexed into tokens and the tokens are rendered. Both steps
//! are functions of the document alone: converting a document twice gives the
//! same result, whatever else has been converted before or meanwhile.

use crate::fragments::{
    lemma_emphasis_tags_balance, lemma_end_leaves_nothing_open, lemma_list_tags_balance,
};
use crate::html::{
    emphasis_closed, emphasis_opened, lists_closed, lists_opened, render, render_html, render_run,
    RenderError,
};
use crate::lexer::{
    lemma_lex_ends_once, lemma_step_advances, lemma_undecodable_runs_bound, lex, lex_from,
    undecodable_runs_from, without_carriage_returns, Lexer, LexerState,
};
use crate::token::{token_views, SpecToken, Token};
use vstd::prelude::*;
use vstd::utf8::encode_utf8;

pub mod document_bytes;
pub mod documents;
pub mod encoding;
pub mod files;
pub mod fragments;
pub mod html;
pub mod lexer;
pub mod scan;
pub mod tags;
pub mod threads;
pub mod token;

verus! {

/// The tokens of the document `markdown`: those of its UTF-8 bytes without
/// the carriage returns.
pub open spec fn tokens_of(markdown: Seq<char>) -> Seq<SpecToken> {
    lex(without_carriage_returns(encode_utf8(markdown)))
}

/// The HTML fragment for the document `markdown`, or the reason why it has
/// none.
pub open spec fn html_of(markdown: Seq<char>) -> Result<Seq<char>, RenderError> {
    render(tokens_of(markdown))
}

/// Whether `html` is the result of converting the document `markdown`.
pub open spec fn is_html_of(html: Result<String, RenderError>, markdown: Seq<char>) -> bool {
    match html_of(markdown) {
        Ok(text) => html matches Ok(fragment) && fragment@ == text,
        Err(error) => html == Err::<String, RenderError>(error),
    }
}

/// How many runs of the document `markdown` are not UTF-8 where the lexer
/// cuts them, and come out empty.
pub open spec fn undecodable_runs_of(markdown: Seq<char>) -> nat {
    undecodable_runs_from(LexerState::start(without_carriage_returns(encode_utf8(markdown))))
}

/// Lexes `markdown` to its end: every token of the document in order, the end
/// token last.
pub fn get_tokens(markdown: &str) -> (tokens: Vec<Token>)
    ensures
        token_views(tokens@) == tokens_of(markdown@),
        tokens@.len() > 0,
        tokens@.last()@ is EndOfFile,
        forall|i: int| 0 <= i < tokens@.len() - 1 ==> !(tokens@[i]@ is EndOfFile),
{
    get_tokens_checked(markdown).0
}

/// Lexes `markdown` to its end, as [`get_tokens`] does, and counts the runs
/// that were not UTF-8 and came out empty, for a caller that reports them.
pub fn get_tokens_checked(markdown: &str) -> (found: (Vec<Token>, usize))
    ensures
        token_views(found.0@) == tokens_of(markdown@),
        found.0@.len() > 0,
        found.0@.last()@ is EndOfFile,
        forall|i: int| 0 <= i < found.0@.len() - 1 ==> !(found.0@[i]@ is EndOfFile),
        found.1 == undecodable_runs_of(markdown@),
{
    let mut lexer = Lexer::new(markdown.to_owned());
    let mut tokens: Vec<Token> = Vec::new();
    let mut undecodable: usize = 0;
    let ghost start = lexer@;
    loop
        invariant_except_break
            lexer@.in_bounds(),
            token_views(tokens@) + lex_from(lexer@) == lex_from(start),
            undecodable + undecodable_runs_from(lexer@) == undecodable_runs_from(start),
            undecodable <= lexer@.position,
        ensures
            token_views(tokens@) == lex_from(start),
            undecodable == undecodable_runs_from(start),
        decreases lexer@.input.len() - lexer@.position,
    {
        let ghost before = lexer@;
        let ghost seen = token_views(tokens@);
        let (token, lost) = lexer.next_token_checked();
        let end = token.is_end();
        proof {
            lemma_step_advances(before);
            lemma_undecodable_runs_bound(before);
            assert(token_views(tokens@.push(token)) =~= seen.push(token@));
            if end {
                assert(seen.push(token@) =~= seen + lex_from(before));
            } else {
                assert(seen.push(token@) + lex_from(lexer@) =~= seen + lex_from(before));
            }
        }
        tokens.push(token);
        if end {
            break ;
        }
        undecodable = undecodable + lost;
    }
    proof {
        lemma_lex_ends_once(start);
        let views = token_views(tokens@);
        assert(views.last() == tokens@.last()@);
        assert forall|i: int| 0 <= i < tokens@.len() - 1 implies !(tokens@[i]@ is EndOfFile) by {
            assert(views[i] == tokens@[i]@);
        }
    }
    (tokens, undecodable)
}

/// Converts the document `markdown` to an HTML fragment. A document with a
/// marker that cannot be classified has none.
pub fn to_html(markdown: &str) -> (html: Result<String, RenderError>)
    ensures
        is_html_of(html, markdown@),
{
    render_html(get_tokens(markdown))
}

/// The result of a conversion depends on the document alone: two conversions
/// of one document fail alike or give the same fragment.
pub proof fn lemma_conversion_is_deterministic(
    markdown: Seq<char>,
    first: Result<String, RenderError>,
    second: Result<String, RenderError>,
)
    requires
        is_html_of(first, markdown),
        is_html_of(second, markdown),
    ensures
        first is Ok <==> second is Ok,
        first matches Ok(a) ==> second matches Ok(b) && a@ == b@,
        first matches Err(a) ==> second matches Err(b) && a == b,
{
}

/// The tokens of a document end with the end token and hold no other one,
/// and their rendering leaves nothing open: no heading, paragraph, list item
/// or list, and neither bold nor italic text. The fragment holds as many
/// end tags of lists, of bold text and of italic text as start tags.
pub proof fn lemma_document_is_closed(markdown: Seq<char>)
    ensures
        tokens_of(markdown).len() > 0,
        tokens_of(markdown).last() is EndOfFile,
        forall|i: int|
            0 <= i < tokens_of(markdown).len() - 1 ==> !(tokens_of(markdown)[i] is EndOfFile),
        render_run(tokens_of(markdown)).0.all_closed(),
        lists_opened(tokens_of(markdown)) == lists_closed(tokens_of(markdown)),
        forall|bold: bool|
            emphasis_opened(tokens_of(markdown), bold) == emphasis_closed(
                tokens_of(markdown),
                bold,
            ),
{
    lemma_lex_ends_once(LexerState::start(without_carriage_returns(encode_utf8(markdown))));
    lemma_end_leaves_nothing_open(tokens_of(markdown));
    lemma_list_tags_balance(tokens_of(markdown));
    lemma_emphasis_tags_balance(tokens_of(markdown), true);
    lemma_emphasis_tags_balance(tokens_of(markdown), false);
}

} // verus!
