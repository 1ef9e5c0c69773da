//! The tags of lists, of bold text and of italic text in the text of a
//! fragment.
//!
//! Text is copied into a fragment as it is, so the characters of a tag can
//! come from a text as well as from the renderer: the texts `<u` and `l>` in
//! a row spell a list tag. Where no text holds a `<`, every `<` of a
//! fragment begins a tag of the renderer, and the tags in the text of the
//! fragment are those that the renderer has appended.

use crate::fragments::{
    lemma_emphasis_tags_balance, lemma_list_tags_balance, lemma_step_closes_open_lists,
};
use crate::html::{
    block_start, code_block_html, emphasis_closed, emphasis_closed_by, emphasis_ends,
    emphasis_opened, emphasis_opened_by, heading_ends, lists_closed, lists_closed_by,
    lists_opened, lists_opened_by, lists_to_close, lists_to_open, render_boundary, render_run,
    render_step, repeated, text_if, RenderState,
};
use crate::encoding::lemma_ascii_char_is_byte;
use crate::lexer::{
    at_line_start, language_of, lemma_step_advances, lex_from, lex_step, text_of, token_start,
    LexerState,
};
use crate::scan::{
    byte_at, find_byte, lemma_find_byte_bounds, lemma_run_end_bounds, lemma_text_end_bounds,
    run_end, text_end, ASTERISK, BACKTICK, DASH, HASH, LESS_THAN, LINE_FEED, NUL, SPACE,
};
use crate::token::SpecToken;
use vstd::prelude::*;
use vstd::utf8::{decode_utf8, decode_utf8_encode_utf8, valid_utf8};

verus! {

/// The elements whose tags are counted: lists (`ul`), bold text (`b`) and
/// italic text (`i`).
pub enum TagKind {
    List,
    Bold,
    Italic,
}

/// One where `condition` holds, zero elsewhere.
pub open spec fn one_if(condition: bool) -> nat {
    if condition {
        1
    } else {
        0
    }
}

/// The letter that the name of an element of `kind` begins with.
pub open spec fn first_letter(kind: TagKind) -> char {
    match kind {
        TagKind::List => 'u',
        TagKind::Bold => 'b',
        TagKind::Italic => 'i',
    }
}

/// Whether a tag of `kind` begins at position `i` of `text`: the end tag
/// where `end` is set (`</ul>`, `</b>`, `</i>`), the start tag elsewhere
/// (`<ul>`, `<b>`, `<i>`).
pub open spec fn tag_at(text: Seq<char>, i: int, kind: TagKind, end: bool) -> bool {
    match kind {
        TagKind::List => if end {
            0 <= i && i + 5 <= text.len() && text[i] == '<' && text[i + 1] == '/' && text[i + 2]
                == 'u' && text[i + 3] == 'l' && text[i + 4] == '>'
        } else {
            0 <= i && i + 4 <= text.len() && text[i] == '<' && text[i + 1] == 'u' && text[i + 2]
                == 'l' && text[i + 3] == '>'
        },
        _ => if end {
            0 <= i && i + 4 <= text.len() && text[i] == '<' && text[i + 1] == '/' && text[i + 2]
                == first_letter(kind) && text[i + 3] == '>'
        } else {
            0 <= i && i + 3 <= text.len() && text[i] == '<' && text[i + 1] == first_letter(kind)
                && text[i + 2] == '>'
        },
    }
}

/// At how many positions below `upto` a tag of `kind` begins in `text`.
pub open spec fn tags_before(text: Seq<char>, upto: int, kind: TagKind, end: bool) -> nat
    decreases upto,
{
    if upto <= 0 {
        0
    } else if tag_at(text, upto - 1, kind, end) {
        tags_before(text, upto - 1, kind, end) + 1
    } else {
        tags_before(text, upto - 1, kind, end)
    }
}

/// How many tags of `kind` `text` holds: end tags where `end` is set, start
/// tags elsewhere.
pub open spec fn tag_count(text: Seq<char>, kind: TagKind, end: bool) -> nat {
    tags_before(text, text.len() as int, kind, end)
}

/// The `<` at position `i` of `text` begins something of which `text` holds
/// enough to tell whether it is a tag of `kind`.
pub open spec fn is_decided_at(text: Seq<char>, i: int, kind: TagKind) -> bool {
    ||| tag_at(text, i, kind, false)
    ||| tag_at(text, i, kind, true)
    ||| (i + 1 < text.len() && text[i + 1] != first_letter(kind) && text[i + 1] != '/')
    ||| (i + 2 < text.len() && text[i + 1] == '/' && text[i + 2] != first_letter(kind))
}

/// Whatever follows `text`, it holds the tags of `kind` that it holds now:
/// every `<` in it is decided.
pub open spec fn is_settled(text: Seq<char>, kind: TagKind) -> bool {
    forall|i: int| 0 <= i < text.len() && text[i] == '<' ==> is_decided_at(text, i, kind)
}

/// `text` is settled and holds `starts` start tags and `ends` end tags of
/// `kind`.
pub open spec fn holds_tags(text: Seq<char>, kind: TagKind, starts: nat, ends: nat) -> bool {
    is_settled(text, kind) && tag_count(text, kind, false) == starts && tag_count(
        text,
        kind,
        true,
    ) == ends
}

/// `text` holds no `<`.
pub open spec fn is_tagless(text: Seq<char>) -> bool {
    forall|i: int| 0 <= i < text.len() ==> text[i] != '<'
}

/// The texts that `token` carries hold no `<`.
pub open spec fn is_tagless_token(token: SpecToken) -> bool {
    match token {
        SpecToken::Text(text) => is_tagless(text),
        SpecToken::Code(code) => is_tagless(code),
        SpecToken::CodeBlock(language, body) => is_tagless(body) && (language matches Some(tag)
            ==> is_tagless(tag)),
        _ => true,
    }
}

/// The texts that `tokens` carry hold no `<`.
pub open spec fn are_tagless(tokens: Seq<SpecToken>) -> bool {
    forall|i: int| 0 <= i < tokens.len() ==> is_tagless_token(#[trigger] tokens[i])
}

/// How many start tags of `kind` the renderer appends for `token` in
/// `state`.
pub open spec fn opened_by(state: RenderState, token: SpecToken, kind: TagKind) -> nat {
    match kind {
        TagKind::List => lists_opened_by(state, token),
        TagKind::Bold => emphasis_opened_by(state, token, true),
        TagKind::Italic => emphasis_opened_by(state, token, false),
    }
}

/// How many end tags of `kind` the renderer appends for `token` in `state`.
pub open spec fn closed_by(state: RenderState, token: SpecToken, kind: TagKind) -> nat {
    match kind {
        TagKind::List => lists_closed_by(state, token),
        TagKind::Bold => emphasis_closed_by(state, token, true),
        TagKind::Italic => emphasis_closed_by(state, token, false),
    }
}

/// How many start tags of `kind` the renderer appends for `tokens`.
pub open spec fn opened(tokens: Seq<SpecToken>, kind: TagKind) -> nat {
    match kind {
        TagKind::List => lists_opened(tokens),
        TagKind::Bold => emphasis_opened(tokens, true),
        TagKind::Italic => emphasis_opened(tokens, false),
    }
}

/// How many end tags of `kind` the renderer appends for `tokens`.
pub open spec fn closed(tokens: Seq<SpecToken>, kind: TagKind) -> nat {
    match kind {
        TagKind::List => lists_closed(tokens),
        TagKind::Bold => emphasis_closed(tokens, true),
        TagKind::Italic => emphasis_closed(tokens, false),
    }
}

/// How many elements of `kind` are open in `state`.
pub open spec fn open_in(state: RenderState, kind: TagKind) -> nat {
    match kind {
        TagKind::List => state.open_lists,
        TagKind::Bold => one_if(state.bold),
        TagKind::Italic => one_if(state.italic),
    }
}

proof fn lemma_count_left(
    first: Seq<char>,
    second: Seq<char>,
    upto: int,
    kind: TagKind,
    end: bool,
)
    requires
        is_settled(first, kind),
        upto <= first.len(),
    ensures
        tags_before(first + second, upto, kind, end) == tags_before(first, upto, kind, end),
    decreases upto,
{
    if upto > 0 {
        lemma_count_left(first, second, upto - 1, kind, end);
        let i = upto - 1;
        assert((first + second)[i] == first[i]);
        if first[i] == '<' {
            assert(is_decided_at(first, i, kind));
        }
        assert(tag_at(first + second, i, kind, end) == tag_at(first, i, kind, end));
    }
}

proof fn lemma_count_right(
    first: Seq<char>,
    second: Seq<char>,
    upto: int,
    kind: TagKind,
    end: bool,
)
    requires
        is_settled(first, kind),
        0 <= upto <= second.len(),
    ensures
        tags_before(first + second, first.len() + upto, kind, end) == tags_before(
            first,
            first.len() as int,
            kind,
            end,
        ) + tags_before(second, upto, kind, end),
    decreases upto,
{
    if upto == 0 {
        lemma_count_left(first, second, first.len() as int, kind, end);
    } else {
        lemma_count_right(first, second, upto - 1, kind, end);
        let i = upto - 1;
        assert(tag_at(first + second, first.len() + i, kind, end) == tag_at(
            second,
            i,
            kind,
            end,
        ));
    }
}

/// Behind a settled text, a second text adds the tags that it holds itself,
/// and no other.
pub proof fn lemma_count_concat(first: Seq<char>, second: Seq<char>, kind: TagKind, end: bool)
    requires
        is_settled(first, kind),
    ensures
        tag_count(first + second, kind, end) == tag_count(first, kind, end) + tag_count(
            second,
            kind,
            end,
        ),
{
    lemma_count_right(first, second, second.len() as int, kind, end);
}

/// Two settled texts in a row are settled, and hold the tags of both.
pub proof fn lemma_concat_holds(
    first: Seq<char>,
    second: Seq<char>,
    kind: TagKind,
    starts: nat,
    ends: nat,
    more_starts: nat,
    more_ends: nat,
)
    requires
        holds_tags(first, kind, starts, ends),
        holds_tags(second, kind, more_starts, more_ends),
    ensures
        holds_tags(first + second, kind, starts + more_starts, ends + more_ends),
{
    lemma_count_concat(first, second, kind, false);
    lemma_count_concat(first, second, kind, true);
    let both = first + second;
    assert forall|i: int| 0 <= i < both.len() && both[i] == '<' implies is_decided_at(
        both,
        i,
        kind,
    ) by {
        if i < first.len() {
            assert(is_decided_at(first, i, kind));
        } else {
            assert(both[i] == second[i - first.len()]);
            assert(is_decided_at(second, i - first.len(), kind));
        }
    }
}

proof fn lemma_none_before(text: Seq<char>, upto: int, kind: TagKind, end: bool)
    requires
        forall|i: int| 0 <= i < upto ==> !tag_at(text, i, kind, end),
    ensures
        tags_before(text, upto, kind, end) == 0,
    decreases upto,
{
    if upto > 0 {
        lemma_none_before(text, upto - 1, kind, end);
    }
}

/// A text without `<` is settled and holds no tag.
pub proof fn lemma_tagless_holds(text: Seq<char>, kind: TagKind)
    requires
        is_tagless(text),
    ensures
        holds_tags(text, kind, 0, 0),
{
    lemma_none_before(text, text.len() as int, kind, false);
    lemma_none_before(text, text.len() as int, kind, true);
}

proof fn lemma_count_one(text: Seq<char>, upto: int, kind: TagKind, end: bool)
    requires
        1 <= upto,
        forall|i: int| 0 < i < upto && i < text.len() ==> text[i] != '<',
    ensures
        tags_before(text, upto, kind, end) == one_if(tag_at(text, 0, kind, end)),
    decreases upto,
{
    if upto > 1 {
        lemma_count_one(text, upto - 1, kind, end);
    } else {
        assert(tags_before(text, 0, kind, end) == 0);
    }
}

/// A text that begins with its only `<`, and holds enough to tell what the
/// `<` begins, is settled and holds one tag where it begins with one.
pub proof fn lemma_one_tag_holds(text: Seq<char>, kind: TagKind)
    requires
        text.len() > 0,
        is_decided_at(text, 0, kind),
        forall|i: int| 0 < i < text.len() ==> text[i] != '<',
    ensures
        holds_tags(
            text,
            kind,
            one_if(tag_at(text, 0, kind, false)),
            one_if(tag_at(text, 0, kind, true)),
        ),
{
    lemma_count_one(text, text.len() as int, kind, false);
    lemma_count_one(text, text.len() as int, kind, true);
}

/// The empty text is settled and holds no tag.
pub proof fn lemma_empty_holds(kind: TagKind)
    ensures
        holds_tags(Seq::<char>::empty(), kind, 0, 0),
{
    lemma_tagless_holds(Seq::<char>::empty(), kind);
}

/// A text that is there or not holds its tags or none.
pub proof fn lemma_text_if_holds(
    condition: bool,
    text: Seq<char>,
    kind: TagKind,
    starts: nat,
    ends: nat,
)
    requires
        holds_tags(text, kind, starts, ends),
    ensures
        holds_tags(
            text_if(condition, text),
            kind,
            if condition {
                starts
            } else {
                0
            },
            if condition {
                ends
            } else {
                0
            },
        ),
{
    lemma_empty_holds(kind);
}

proof fn lemma_times(count: nat)
    ensures
        count * 0 == 0,
        count * 1 == count,
{
    assert(count * 0 == 0 && count * 1 == count) by (nonlinear_arith);
}

/// A text several times in a row holds its tags that many times.
pub proof fn lemma_repeated_holds(
    text: Seq<char>,
    times: nat,
    kind: TagKind,
    starts: nat,
    ends: nat,
)
    requires
        holds_tags(text, kind, starts, ends),
    ensures
        holds_tags(repeated(text, times), kind, times * starts, times * ends),
    decreases times,
{
    if times == 0 {
        lemma_empty_holds(kind);
        assert(times * starts == 0 && times * ends == 0) by (nonlinear_arith)
            requires
                times == 0,
        ;
    } else {
        let before = (times - 1) as nat;
        lemma_repeated_holds(text, before, kind, starts, ends);
        lemma_concat_holds(
            repeated(text, before),
            text,
            kind,
            before * starts,
            before * ends,
            starts,
            ends,
        );
        assert(before * starts + starts == times * starts) by (nonlinear_arith)
            requires
                before + 1 == times,
        ;
        assert(before * ends + ends == times * ends) by (nonlinear_arith)
            requires
                before + 1 == times,
        ;
    }
}

/// The tags of the renderer are settled. Of the tags of lists, of bold text
/// and of italic text they hold what their names say: each start tag and
/// each end tag is one of its own kind, and no other tag holds any.
pub proof fn lemma_tags_hold(kind: TagKind)
    ensures
        holds_tags("<p>"@, kind, 0, 0),
        holds_tags("</p>"@, kind, 0, 0),
        holds_tags("<code>"@, kind, 0, 0),
        holds_tags("</code>"@, kind, 0, 0),
        holds_tags("<pre>"@, kind, 0, 0),
        holds_tags("</pre>"@, kind, 0, 0),
        holds_tags("<code class=\"language-"@, kind, 0, 0),
        holds_tags("<li>"@, kind, 0, 0),
        holds_tags("</li>"@, kind, 0, 0),
        holds_tags("<h1>"@, kind, 0, 0),
        holds_tags("<h2>"@, kind, 0, 0),
        holds_tags("<h3>"@, kind, 0, 0),
        holds_tags("<h4>"@, kind, 0, 0),
        holds_tags("<h5>"@, kind, 0, 0),
        holds_tags("<h6>"@, kind, 0, 0),
        holds_tags("</h1>"@, kind, 0, 0),
        holds_tags("</h2>"@, kind, 0, 0),
        holds_tags("</h3>"@, kind, 0, 0),
        holds_tags("</h4>"@, kind, 0, 0),
        holds_tags("</h5>"@, kind, 0, 0),
        holds_tags("</h6>"@, kind, 0, 0),
        holds_tags("<ul>"@, kind, one_if(kind is List), 0),
        holds_tags("</ul>"@, kind, 0, one_if(kind is List)),
        holds_tags("<b>"@, kind, one_if(kind is Bold), 0),
        holds_tags("</b>"@, kind, 0, one_if(kind is Bold)),
        holds_tags("<i>"@, kind, one_if(kind is Italic), 0),
        holds_tags("</i>"@, kind, 0, one_if(kind is Italic)),
        holds_tags(" "@, kind, 0, 0),
        holds_tags("\">"@, kind, 0, 0),
        holds_tags("</code></pre>"@, kind, 0, 0),
{
    reveal_strlit("<p>");
    lemma_one_tag_holds("<p>"@, kind);
    reveal_strlit("</p>");
    lemma_one_tag_holds("</p>"@, kind);
    reveal_strlit("<code>");
    lemma_one_tag_holds("<code>"@, kind);
    reveal_strlit("</code>");
    lemma_one_tag_holds("</code>"@, kind);
    reveal_strlit("<pre>");
    lemma_one_tag_holds("<pre>"@, kind);
    reveal_strlit("</pre>");
    lemma_one_tag_holds("</pre>"@, kind);
    reveal_strlit("<code class=\"language-");
    lemma_one_tag_holds("<code class=\"language-"@, kind);
    reveal_strlit("<li>");
    lemma_one_tag_holds("<li>"@, kind);
    reveal_strlit("</li>");
    lemma_one_tag_holds("</li>"@, kind);
    reveal_strlit("<h1>");
    lemma_one_tag_holds("<h1>"@, kind);
    reveal_strlit("<h2>");
    lemma_one_tag_holds("<h2>"@, kind);
    reveal_strlit("<h3>");
    lemma_one_tag_holds("<h3>"@, kind);
    reveal_strlit("<h4>");
    lemma_one_tag_holds("<h4>"@, kind);
    reveal_strlit("<h5>");
    lemma_one_tag_holds("<h5>"@, kind);
    reveal_strlit("<h6>");
    lemma_one_tag_holds("<h6>"@, kind);
    reveal_strlit("</h1>");
    lemma_one_tag_holds("</h1>"@, kind);
    reveal_strlit("</h2>");
    lemma_one_tag_holds("</h2>"@, kind);
    reveal_strlit("</h3>");
    lemma_one_tag_holds("</h3>"@, kind);
    reveal_strlit("</h4>");
    lemma_one_tag_holds("</h4>"@, kind);
    reveal_strlit("</h5>");
    lemma_one_tag_holds("</h5>"@, kind);
    reveal_strlit("</h6>");
    lemma_one_tag_holds("</h6>"@, kind);
    reveal_strlit("<ul>");
    lemma_one_tag_holds("<ul>"@, kind);
    reveal_strlit("</ul>");
    lemma_one_tag_holds("</ul>"@, kind);
    reveal_strlit("<b>");
    lemma_one_tag_holds("<b>"@, kind);
    reveal_strlit("</b>");
    lemma_one_tag_holds("</b>"@, kind);
    reveal_strlit("<i>");
    lemma_one_tag_holds("<i>"@, kind);
    reveal_strlit("</i>");
    lemma_one_tag_holds("</i>"@, kind);
    reveal_strlit(" ");
    lemma_tagless_holds(" "@, kind);
    reveal_strlit("\">");
    lemma_tagless_holds("\">"@, kind);
    reveal_strlit("</code></pre>");
    assert("</code></pre>"@ =~= "</code>"@ + "</pre>"@);
    lemma_concat_holds("</code>"@, "</pre>"@, kind, 0, 0, 0, 0);
}

/// The paragraph tag that opens a block holds no tag of `kind`.
pub proof fn lemma_block_start_holds(state: RenderState, kind: TagKind)
    ensures
        holds_tags(block_start(state), kind, 0, 0),
{
    lemma_tags_hold(kind);
    lemma_text_if_holds(!state.block_open(), "<p>"@, kind, 0, 0);
}

/// The end tags of the open headings hold no tag of `kind`.
pub proof fn lemma_heading_ends_hold(state: RenderState, kind: TagKind)
    ensures
        holds_tags(heading_ends(state), kind, 0, 0),
{
    lemma_tags_hold(kind);
    let e1 = text_if(state.h1, "</h1>"@);
    let e2 = text_if(state.h2, "</h2>"@);
    let e3 = text_if(state.h3, "</h3>"@);
    let e4 = text_if(state.h4, "</h4>"@);
    let e5 = text_if(state.h5, "</h5>"@);
    let e6 = text_if(state.h6, "</h6>"@);
    lemma_text_if_holds(state.h1, "</h1>"@, kind, 0, 0);
    lemma_text_if_holds(state.h2, "</h2>"@, kind, 0, 0);
    lemma_text_if_holds(state.h3, "</h3>"@, kind, 0, 0);
    lemma_text_if_holds(state.h4, "</h4>"@, kind, 0, 0);
    lemma_text_if_holds(state.h5, "</h5>"@, kind, 0, 0);
    lemma_text_if_holds(state.h6, "</h6>"@, kind, 0, 0);
    lemma_concat_holds(e1, e2, kind, 0, 0, 0, 0);
    lemma_concat_holds(e1 + e2, e3, kind, 0, 0, 0, 0);
    lemma_concat_holds(e1 + e2 + e3, e4, kind, 0, 0, 0, 0);
    lemma_concat_holds(e1 + e2 + e3 + e4, e5, kind, 0, 0, 0, 0);
    lemma_concat_holds(e1 + e2 + e3 + e4 + e5, e6, kind, 0, 0, 0, 0);
}

/// What a boundary appends holds a list end tag for every open list where
/// it closes the lists, and no other tag of a list or of emphasis.
pub proof fn lemma_boundary_holds(state: RenderState, closing: bool, kind: TagKind)
    ensures
        holds_tags(
            render_boundary(state, closing).1,
            kind,
            0,
            if closing && kind is List {
                state.open_lists
            } else {
                0
            },
        ),
{
    lemma_tags_hold(kind);
    lemma_heading_ends_hold(state, kind);
    let headings = heading_ends(state);
    let paragraph = text_if(state.paragraph && closing, "</p>"@);
    let item = text_if(state.list_item, "</li>"@);
    let lists = text_if(closing, repeated("</ul>"@, state.open_lists));
    lemma_text_if_holds(state.paragraph && closing, "</p>"@, kind, 0, 0);
    lemma_text_if_holds(state.list_item, "</li>"@, kind, 0, 0);
    lemma_repeated_holds("</ul>"@, state.open_lists, kind, 0, one_if(kind is List));
    lemma_times(state.open_lists);
    let all: nat = if kind is List {
        state.open_lists
    } else {
        0
    };
    lemma_text_if_holds(closing, repeated("</ul>"@, state.open_lists), kind, 0, all);
    let ends: nat = if closing && kind is List {
        state.open_lists
    } else {
        0
    };
    lemma_concat_holds(headings, paragraph, kind, 0, 0, 0, 0);
    lemma_concat_holds(headings + paragraph, item, kind, 0, 0, 0, 0);
    lemma_concat_holds(headings + paragraph + item, lists, kind, 0, 0, 0, ends);
}

/// What a list item appends holds an end tag for every list that it closes
/// and a start tag for every list that it opens, and no tag of emphasis.
pub proof fn lemma_bullet_holds(state: RenderState, depth: nat, kind: TagKind)
    ensures
        holds_tags(
            render_step(state, SpecToken::UnorderedBullet(depth)).1,
            kind,
            if kind is List {
                lists_to_open(state.open_lists, depth)
            } else {
                0
            },
            if kind is List {
                lists_to_close(state.open_lists, depth)
            } else {
                0
            },
        ),
{
    lemma_tags_hold(kind);
    let closed = lists_to_close(state.open_lists, depth);
    let opened = lists_to_open(state.open_lists, depth);
    let one = one_if(kind is List);
    lemma_repeated_holds("</ul>"@, closed, kind, 0, one);
    lemma_repeated_holds("<ul>"@, opened, kind, one, 0);
    lemma_times(closed);
    lemma_times(opened);
    let ends = repeated("</ul>"@, closed);
    let starts = repeated("<ul>"@, opened);
    lemma_concat_holds(ends, starts, kind, 0, closed * one, opened * one, 0);
    lemma_concat_holds(ends + starts, "<li>"@, kind, opened * one, closed * one, 0, 0);
}

/// A fenced block without `<` in its texts holds no tag of `kind`.
pub proof fn lemma_code_block_holds(language: Option<Seq<char>>, body: Seq<char>, kind: TagKind)
    requires
        is_tagless(body),
        language matches Some(tag) ==> is_tagless(tag),
    ensures
        holds_tags(code_block_html(language, body), kind, 0, 0),
{
    lemma_tags_hold(kind);
    lemma_tagless_holds(body, kind);
    match language {
        Some(tag) => {
            lemma_tagless_holds(tag, kind);
            let a = "<pre>"@ + "<code class=\"language-"@;
            lemma_concat_holds("<pre>"@, "<code class=\"language-"@, kind, 0, 0, 0, 0);
            lemma_concat_holds(a, tag, kind, 0, 0, 0, 0);
            lemma_concat_holds(a + tag, "\">"@, kind, 0, 0, 0, 0);
            lemma_concat_holds(a + tag + "\">"@, body, kind, 0, 0, 0, 0);
            lemma_concat_holds(a + tag + "\">"@ + body, "</code></pre>"@, kind, 0, 0, 0, 0);
        },
        None => {
            lemma_concat_holds("<pre>"@, "<code>"@, kind, 0, 0, 0, 0);
            lemma_concat_holds("<pre>"@ + "<code>"@, body, kind, 0, 0, 0, 0);
            lemma_concat_holds("<pre>"@ + "<code>"@ + body, "</code></pre>"@, kind, 0, 0, 0, 0);
        },
    }
}

/// What a token without `<` in its texts appends is settled, and the tags of
/// `kind` in it are those that the renderer appends for the token.
pub proof fn lemma_step_holds(state: RenderState, token: SpecToken, kind: TagKind)
    requires
        is_tagless_token(token),
    ensures
        holds_tags(
            render_step(state, token).1,
            kind,
            opened_by(state, token, kind),
            closed_by(state, token, kind),
        ),
{
    lemma_tags_hold(kind);
    lemma_empty_holds(kind);
    lemma_block_start_holds(state, kind);
    let start = block_start(state);
    match token {
        SpecToken::Text(text) => {
            lemma_tagless_holds(text, kind);
            lemma_text_if_holds(state.pending_space, " "@, kind, 0, 0);
            let space = text_if(state.pending_space, " "@);
            lemma_concat_holds(start, space, kind, 0, 0, 0, 0);
            lemma_concat_holds(start + space, text, kind, 0, 0, 0, 0);
        },
        SpecToken::Code(code) => {
            lemma_tagless_holds(code, kind);
            lemma_concat_holds(start, "<code>"@, kind, 0, 0, 0, 0);
            lemma_concat_holds(start + "<code>"@, code, kind, 0, 0, 0, 0);
            lemma_concat_holds(start + "<code>"@ + code, "</code>"@, kind, 0, 0, 0, 0);
        },
        SpecToken::CodeBlock(language, body) => {
            lemma_code_block_holds(language, body, kind);
        },
        SpecToken::UnorderedBullet(depth) => {
            lemma_bullet_holds(state, depth, kind);
        },
        SpecToken::Bold => {
            let tag = if state.bold {
                "</b>"@
            } else {
                "<b>"@
            };
            lemma_concat_holds(
                start,
                tag,
                kind,
                0,
                0,
                one_if(kind is Bold && !state.bold),
                one_if(kind is Bold && state.bold),
            );
        },
        SpecToken::Italic => {
            let tag = if state.italic {
                "</i>"@
            } else {
                "<i>"@
            };
            lemma_concat_holds(
                start,
                tag,
                kind,
                0,
                0,
                one_if(kind is Italic && !state.italic),
                one_if(kind is Italic && state.italic),
            );
        },
        SpecToken::Newline => {
            lemma_boundary_holds(state, false, kind);
        },
        SpecToken::DoubleNewline => {
            lemma_boundary_holds(state, true, kind);
        },
        SpecToken::EndOfFile => {
            lemma_boundary_holds(state, true, kind);
            let italic = one_if(kind is Italic && state.italic);
            let bold = one_if(kind is Bold && state.bold);
            lemma_text_if_holds(state.italic, "</i>"@, kind, 0, one_if(kind is Italic));
            lemma_text_if_holds(state.bold, "</b>"@, kind, 0, one_if(kind is Bold));
            lemma_concat_holds(
                text_if(state.italic, "</i>"@),
                text_if(state.bold, "</b>"@),
                kind,
                0,
                italic,
                0,
                bold,
            );
            lemma_concat_holds(
                emphasis_ends(state),
                render_boundary(state, true).1,
                kind,
                0,
                italic + bold,
                0,
                if kind is List {
                    state.open_lists
                } else {
                    0
                },
            );
        },
        _ => {},
    }
}

/// The text of a fragment is settled, and the tags of `kind` in it are those
/// that the renderer has appended, where no text of the tokens holds a `<`.
pub proof fn lemma_fragment_holds(tokens: Seq<SpecToken>, kind: TagKind)
    requires
        are_tagless(tokens),
    ensures
        holds_tags(render_run(tokens).1, kind, opened(tokens, kind), closed(tokens, kind)),
    decreases tokens.len(),
{
    if tokens.len() == 0 {
        lemma_empty_holds(kind);
    } else {
        let before = tokens.drop_last();
        assert forall|i: int| 0 <= i < before.len() implies is_tagless_token(
            #[trigger] before[i],
        ) by {
            assert(before[i] == tokens[i]);
        }
        lemma_fragment_holds(before, kind);
        let (state, html) = render_run(before);
        lemma_step_holds(state, tokens.last(), kind);
        lemma_concat_holds(
            html,
            render_step(state, tokens.last()).1,
            kind,
            opened(before, kind),
            closed(before, kind),
            opened_by(state, tokens.last(), kind),
            closed_by(state, tokens.last(), kind),
        );
    }
}

/// Every tag is accounted for: the elements of `kind` that a fragment opens
/// are those that it closes and those that are open behind it; and no token
/// closes more of them than are open.
pub proof fn lemma_tags_balance(tokens: Seq<SpecToken>, token: SpecToken, kind: TagKind)
    ensures
        opened(tokens, kind) == closed(tokens, kind) + open_in(render_run(tokens).0, kind),
        closed_by(render_run(tokens).0, token, kind) <= open_in(render_run(tokens).0, kind),
{
    lemma_list_tags_balance(tokens);
    lemma_emphasis_tags_balance(tokens, true);
    lemma_emphasis_tags_balance(tokens, false);
    lemma_step_closes_open_lists(render_run(tokens).0, token);
}

/// The text of a fragment that ends with the end token holds as many end
/// tags as start tags of lists, of bold text and of italic text, where no
/// text of the tokens holds a `<`.
pub proof fn lemma_fragment_closes_its_tags(tokens: Seq<SpecToken>, kind: TagKind)
    requires
        are_tagless(tokens),
        tokens.len() > 0,
        tokens.last() is EndOfFile,
    ensures
        tag_count(render_run(tokens).1, kind, true) == tag_count(
            render_run(tokens).1,
            kind,
            false,
        ),
{
    lemma_fragment_holds(tokens, kind);
    lemma_list_tags_balance(tokens);
    lemma_emphasis_tags_balance(tokens, true);
    lemma_emphasis_tags_balance(tokens, false);
}

proof fn lemma_count_grows(text: Seq<char>, upto: int, kind: TagKind, end: bool)
    requires
        upto <= text.len(),
    ensures
        tags_before(text, upto, kind, end) <= tag_count(text, kind, end),
    decreases text.len() - upto,
{
    if upto < text.len() {
        lemma_count_grows(text, upto + 1, kind, end);
    }
}

proof fn lemma_count_in_prefix(
    text: Seq<char>,
    length: int,
    upto: int,
    kind: TagKind,
    end: bool,
)
    requires
        0 <= length <= text.len(),
        upto <= length,
    ensures
        tags_before(text.take(length), upto, kind, end) <= tags_before(text, upto, kind, end),
    decreases upto,
{
    if upto > 0 {
        lemma_count_in_prefix(text, length, upto - 1, kind, end);
        if tag_at(text.take(length), upto - 1, kind, end) {
            assert(tag_at(text, upto - 1, kind, end));
        }
    }
}

/// The beginning of a text holds no more tags than the text.
pub proof fn lemma_prefix_holds_no_more(text: Seq<char>, length: int, kind: TagKind, end: bool)
    requires
        0 <= length <= text.len(),
    ensures
        tag_count(text.take(length), kind, end) <= tag_count(text, kind, end),
{
    lemma_count_in_prefix(text, length, length, kind, end);
    lemma_count_grows(text, length, kind, end);
}

/// No beginning of a fragment holds more end tags than start tags of lists,
/// of bold text or of italic text: nothing is closed before it was opened,
/// where no text of the tokens holds a `<`.
pub proof fn lemma_fragment_closes_nothing_unopened(
    tokens: Seq<SpecToken>,
    length: int,
    kind: TagKind,
)
    requires
        are_tagless(tokens),
        0 <= length <= render_run(tokens).1.len(),
    ensures
        tag_count(render_run(tokens).1.take(length), kind, true) <= tag_count(
            render_run(tokens).1.take(length),
            kind,
            false,
        ),
    decreases tokens.len(),
{
    if tokens.len() == 0 {
        lemma_tagless_holds(render_run(tokens).1.take(length), kind);
    } else {
        let before = tokens.drop_last();
        assert forall|i: int| 0 <= i < before.len() implies is_tagless_token(
            #[trigger] before[i],
        ) by {
            assert(before[i] == tokens[i]);
        }
        let (state, html) = render_run(before);
        let piece = render_step(state, tokens.last()).1;
        if length <= html.len() {
            lemma_fragment_closes_nothing_unopened(before, length, kind);
            assert((html + piece).take(length) =~= html.take(length));
        } else {
            let rest = piece.take(length - html.len());
            assert((html + piece).take(length) =~= html + rest);
            lemma_fragment_holds(before, kind);
            lemma_count_concat(html, rest, kind, true);
            lemma_count_concat(html, rest, kind, false);
            lemma_step_holds(state, tokens.last(), kind);
            lemma_prefix_holds_no_more(piece, length - html.len(), kind, true);
            lemma_tags_balance(before, tokens.last(), kind);
        }
    }
}

/// `bytes` hold no `<`.
pub open spec fn are_tagless_bytes(bytes: Seq<u8>) -> bool {
    forall|i: int| 0 <= i < bytes.len() ==> bytes[i] != LESS_THAN
}

/// The text of bytes without `<` holds no `<`.
pub proof fn lemma_text_of_is_tagless(bytes: Seq<u8>)
    requires
        are_tagless_bytes(bytes),
    ensures
        is_tagless(text_of(bytes)),
        language_of(bytes) matches Some(tag) ==> is_tagless(tag),
{
    if valid_utf8(bytes) {
        let text = decode_utf8(bytes);
        decode_utf8_encode_utf8(bytes);
        assert forall|j: int| 0 <= j < text.len() implies text[j] != '<' by {
            if text[j] == '<' {
                lemma_ascii_char_is_byte(text, j);
            }
        }
    }
}

/// The texts of a token hold no `<` where the document holds none.
pub proof fn lemma_token_is_tagless(state: LexerState)
    requires
        state.in_bounds(),
        are_tagless_bytes(state.input),
    ensures
        is_tagless_token(lex_step(state).0),
{
    let input = state.input;
    let len = input.len() as int;
    if at_line_start(input, state.position) {
        lemma_run_end_bounds(input, state.position, SPACE);
    }
    let at = token_start(input, state.position);
    let byte = byte_at(input, at);
    if byte == BACKTICK {
        lemma_run_end_bounds(input, at, BACKTICK);
        let ticks = run_end(input, at, BACKTICK);
        lemma_find_byte_bounds(input, ticks, BACKTICK);
        lemma_find_byte_bounds(input, ticks, LINE_FEED);
        let line_end = find_byte(input, ticks, LINE_FEED);
        let body = if line_end < len {
            line_end + 1
        } else {
            line_end
        };
        lemma_find_byte_bounds(input, body, BACKTICK);
        let close = find_byte(input, body, BACKTICK);
        lemma_text_of_is_tagless(input.subrange(ticks, find_byte(input, ticks, BACKTICK)));
        lemma_text_of_is_tagless(input.subrange(ticks, line_end));
        lemma_text_of_is_tagless(input.subrange(body, close));
    } else if byte != HASH && byte != DASH && byte != ASTERISK && byte != LINE_FEED && byte
        != NUL {
        lemma_text_end_bounds(input, at);
        lemma_text_of_is_tagless(input.subrange(at, text_end(input, at)));
    }
}

/// The texts of the tokens of a document hold no `<` where the document
/// holds none.
pub proof fn lemma_tokens_are_tagless(state: LexerState)
    requires
        state.in_bounds(),
        are_tagless_bytes(state.input),
    ensures
        are_tagless(lex_from(state)),
    decreases state.input.len() - state.position,
{
    lemma_step_advances(state);
    lemma_token_is_tagless(state);
    let (token, next) = lex_step(state);
    if !(token is EndOfFile) {
        lemma_tokens_are_tagless(next);
        let rest = lex_from(next);
        assert forall|i: int| 0 <= i < lex_from(state).len() implies is_tagless_token(
            #[trigger] lex_from(state)[i],
        ) by {
            if i > 0 {
                assert(lex_from(state)[i] == rest[i - 1]);
            }
        }
    }
}

} // verus!
