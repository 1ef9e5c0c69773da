//! What the renderer makes of token sequences of a given shape, and what
//! holds of every rendering.

use crate::html::{
    block_start, code_block_html, emphasis_closed, emphasis_closed_by, emphasis_count,
    emphasis_end_tag, emphasis_open, emphasis_opened, emphasis_opened_by,
    emphasis_start_tag, emphasis_token, heading_end_tag, heading_ends, heading_start_tag,
    lists_closed, lists_closed_by, lists_opened, lists_opened_by, render_run, render_step,
    repeated, text_if, RenderState,
};
use crate::token::{heading_token, SpecToken};
use vstd::prelude::*;

verus! {

/// Rendering goes token by token: the last token is rendered in the state
/// that the tokens before it leave.
pub proof fn lemma_render_push(tokens: Seq<SpecToken>, token: SpecToken)
    ensures
        render_run(tokens.push(token)) == (
            render_step(render_run(tokens).0, token).0,
            render_run(tokens).1 + render_step(render_run(tokens).0, token).1,
        ),
{
    assert(tokens.push(token).drop_last() =~= tokens);
}

/// A heading, its text and the end make one heading element.
pub proof fn lemma_render_heading(level: int, text: Seq<char>)
    requires
        1 <= level <= 6,
    ensures
        render_run(seq![heading_token(level), SpecToken::Text(text), SpecToken::EndOfFile]) == (
            RenderState::start(),
            heading_start_tag(level) + text + heading_end_tag(level),
        ),
{
    let none = Seq::<SpecToken>::empty();
    let heading = heading_token(level);
    let tokens = seq![heading, SpecToken::Text(text), SpecToken::EndOfFile];
    lemma_render_push(none, heading);
    lemma_render_push(none.push(heading), SpecToken::Text(text));
    lemma_render_push(none.push(heading).push(SpecToken::Text(text)), SpecToken::EndOfFile);
    assert(tokens =~= none.push(heading).push(SpecToken::Text(text)).push(SpecToken::EndOfFile));
    let opened = render_run(none.push(heading));
    assert(opened.1 =~= heading_start_tag(level));
    let filled = render_run(none.push(heading).push(SpecToken::Text(text)));
    assert(filled.1 =~= heading_start_tag(level) + text);
    assert(render_step(filled.0, SpecToken::EndOfFile).1 =~= heading_end_tag(level));
}

/// A heading and the end make one empty heading element.
pub proof fn lemma_render_heading_alone(level: int)
    requires
        1 <= level <= 6,
    ensures
        render_run(seq![heading_token(level), SpecToken::EndOfFile]) == (
            RenderState::start(),
            heading_start_tag(level) + heading_end_tag(level),
        ),
{
    let none = Seq::<SpecToken>::empty();
    let heading = heading_token(level);
    lemma_render_push(none, heading);
    lemma_render_push(none.push(heading), SpecToken::EndOfFile);
    assert(seq![heading, SpecToken::EndOfFile] =~= none.push(heading).push(SpecToken::EndOfFile));
    let opened = render_run(none.push(heading));
    assert(opened.1 =~= heading_start_tag(level));
    assert(render_step(opened.0, SpecToken::EndOfFile).1 =~= heading_end_tag(level));
}

/// Two texts with a paragraph break between them make two paragraphs.
pub proof fn lemma_render_paragraphs(first: Seq<char>, second: Seq<char>)
    ensures
        render_run(
            seq![
                SpecToken::Text(first),
                SpecToken::DoubleNewline,
                SpecToken::Text(second),
                SpecToken::EndOfFile,
            ],
        ) == (RenderState::start(), "<p>"@ + first + "</p>"@ + "<p>"@ + second + "</p>"@),
{
    let none = Seq::<SpecToken>::empty();
    let t1 = none.push(SpecToken::Text(first));
    let t2 = t1.push(SpecToken::DoubleNewline);
    let t3 = t2.push(SpecToken::Text(second));
    let t4 = t3.push(SpecToken::EndOfFile);
    lemma_render_push(none, SpecToken::Text(first));
    lemma_render_push(t1, SpecToken::DoubleNewline);
    lemma_render_push(t2, SpecToken::Text(second));
    lemma_render_push(t3, SpecToken::EndOfFile);
    assert(seq![
        SpecToken::Text(first),
        SpecToken::DoubleNewline,
        SpecToken::Text(second),
        SpecToken::EndOfFile,
    ] =~= t4);
    assert(render_run(t1).1 =~= "<p>"@ + first);
    assert(render_step(render_run(t1).0, SpecToken::DoubleNewline).1 =~= "</p>"@);
    assert(render_step(render_run(t2).0, SpecToken::Text(second)).1 =~= "<p>"@ + second);
    assert(render_step(render_run(t3).0, SpecToken::EndOfFile).1 =~= "</p>"@);
    assert(render_run(t4).1 =~= "<p>"@ + first + "</p>"@ + "<p>"@ + second + "</p>"@);
}

/// Two texts with a line break between them make one paragraph, with a
/// space in place of the line break.
pub proof fn lemma_render_soft_break(first: Seq<char>, second: Seq<char>)
    ensures
        render_run(
            seq![
                SpecToken::Text(first),
                SpecToken::Newline,
                SpecToken::Text(second),
                SpecToken::EndOfFile,
            ],
        ) == (RenderState::start(), "<p>"@ + first + " "@ + second + "</p>"@),
{
    let none = Seq::<SpecToken>::empty();
    let t1 = none.push(SpecToken::Text(first));
    let t2 = t1.push(SpecToken::Newline);
    let t3 = t2.push(SpecToken::Text(second));
    let t4 = t3.push(SpecToken::EndOfFile);
    lemma_render_push(none, SpecToken::Text(first));
    lemma_render_push(t1, SpecToken::Newline);
    lemma_render_push(t2, SpecToken::Text(second));
    lemma_render_push(t3, SpecToken::EndOfFile);
    assert(seq![
        SpecToken::Text(first),
        SpecToken::Newline,
        SpecToken::Text(second),
        SpecToken::EndOfFile,
    ] =~= t4);
    assert(render_run(t1).1 =~= "<p>"@ + first);
    assert(render_step(render_run(t1).0, SpecToken::Newline).1 =~= Seq::<char>::empty());
    assert(render_step(render_run(t2).0, SpecToken::Text(second)).1 =~= " "@ + second);
    assert(render_step(render_run(t3).0, SpecToken::EndOfFile).1 =~= "</p>"@);
    assert(render_run(t4).1 =~= "<p>"@ + first + " "@ + second + "</p>"@);
}

/// A text, an emphasis delimiter, a second text, the same delimiter and the
/// end make one paragraph in which the second text is emphasised.
pub proof fn lemma_render_emphasis(first: Seq<char>, second: Seq<char>, bold: bool)
    ensures
        render_run(
            seq![
                SpecToken::Text(first),
                emphasis_token(bold),
                SpecToken::Text(second),
                emphasis_token(bold),
                SpecToken::EndOfFile,
            ],
        ) == (
            RenderState::start(),
            "<p>"@ + first + emphasis_start_tag(bold) + second + emphasis_end_tag(bold) + "</p>"@,
        ),
{
    let none = Seq::<SpecToken>::empty();
    let mark = emphasis_token(bold);
    let t1 = none.push(SpecToken::Text(first));
    let t2 = t1.push(mark);
    let t3 = t2.push(SpecToken::Text(second));
    let t4 = t3.push(mark);
    let t5 = t4.push(SpecToken::EndOfFile);
    lemma_render_push(none, SpecToken::Text(first));
    lemma_render_push(t1, mark);
    lemma_render_push(t2, SpecToken::Text(second));
    lemma_render_push(t3, mark);
    lemma_render_push(t4, SpecToken::EndOfFile);
    assert(seq![
        SpecToken::Text(first),
        mark,
        SpecToken::Text(second),
        mark,
        SpecToken::EndOfFile,
    ] =~= t5);
    assert(render_run(t1).1 =~= "<p>"@ + first);
    assert(render_step(render_run(t1).0, mark).1 =~= emphasis_start_tag(bold));
    assert(render_step(render_run(t2).0, SpecToken::Text(second)).1 =~= second);
    assert(render_step(render_run(t3).0, mark).1 =~= emphasis_end_tag(bold));
    assert(render_step(render_run(t4).0, SpecToken::EndOfFile).1 =~= "</p>"@);
    assert(render_run(t5).1 =~= "<p>"@ + first + emphasis_start_tag(bold) + second
        + emphasis_end_tag(bold) + "</p>"@);
}

/// Two list items, the second at `depth`, make a list in which the second
/// item stands `depth` lists deeper than the first. Every list that was
/// opened is closed at the end.
pub proof fn lemma_render_nested_item(first: Seq<char>, depth: nat, second: Seq<char>)
    ensures
        render_run(
            seq![
                SpecToken::UnorderedBullet(0),
                SpecToken::Text(first),
                SpecToken::Newline,
                SpecToken::UnorderedBullet(depth),
                SpecToken::Text(second),
                SpecToken::EndOfFile,
            ],
        ) == (
            RenderState::start(),
            "<ul>"@ + "<li>"@ + first + "</li>"@ + repeated("<ul>"@, depth) + "<li>"@ + second
                + "</li>"@ + repeated("</ul>"@, depth + 1),
        ),
{
    let none = Seq::<SpecToken>::empty();
    let t1 = none.push(SpecToken::UnorderedBullet(0));
    let t2 = t1.push(SpecToken::Text(first));
    let t3 = t2.push(SpecToken::Newline);
    let t4 = t3.push(SpecToken::UnorderedBullet(depth));
    let t5 = t4.push(SpecToken::Text(second));
    let t6 = t5.push(SpecToken::EndOfFile);
    lemma_render_push(none, SpecToken::UnorderedBullet(0));
    lemma_render_push(t1, SpecToken::Text(first));
    lemma_render_push(t2, SpecToken::Newline);
    lemma_render_push(t3, SpecToken::UnorderedBullet(depth));
    lemma_render_push(t4, SpecToken::Text(second));
    lemma_render_push(t5, SpecToken::EndOfFile);
    assert(seq![
        SpecToken::UnorderedBullet(0),
        SpecToken::Text(first),
        SpecToken::Newline,
        SpecToken::UnorderedBullet(depth),
        SpecToken::Text(second),
        SpecToken::EndOfFile,
    ] =~= t6);
    assert(repeated("<ul>"@, 1) =~= "<ul>"@) by {
        reveal_with_fuel(repeated, 2);
    }
    assert(repeated("</ul>"@, 0) =~= Seq::<char>::empty());
    assert(render_run(t1).1 =~= "<ul>"@ + "<li>"@);
    assert(render_step(render_run(t1).0, SpecToken::Text(first)).1 =~= first);
    assert(render_step(render_run(t2).0, SpecToken::Newline).1 =~= "</li>"@);
    assert(render_step(render_run(t3).0, SpecToken::UnorderedBullet(depth)).1 =~= repeated(
        "<ul>"@,
        depth,
    ) + "<li>"@);
    assert(render_step(render_run(t4).0, SpecToken::Text(second)).1 =~= second);
    assert(render_step(render_run(t5).0, SpecToken::EndOfFile).1 =~= "</li>"@ + repeated(
        "</ul>"@,
        depth + 1,
    ));
    assert(render_run(t6).1 =~= "<ul>"@ + "<li>"@ + first + "</li>"@ + repeated("<ul>"@, depth)
        + "<li>"@ + second + "</li>"@ + repeated("</ul>"@, depth + 1));
}

/// Inline code and the end make one paragraph that holds the code.
pub proof fn lemma_render_code(code: Seq<char>)
    ensures
        render_run(seq![SpecToken::Code(code), SpecToken::EndOfFile]) == (
            RenderState::start(),
            "<p>"@ + "<code>"@ + code + "</code>"@ + "</p>"@,
        ),
{
    let none = Seq::<SpecToken>::empty();
    let span = SpecToken::Code(code);
    lemma_render_push(none, span);
    lemma_render_push(none.push(span), SpecToken::EndOfFile);
    assert(seq![span, SpecToken::EndOfFile] =~= none.push(span).push(SpecToken::EndOfFile));
    assert(render_run(none.push(span)).1 =~= "<p>"@ + "<code>"@ + code + "</code>"@);
    assert(render_step(render_run(none.push(span)).0, SpecToken::EndOfFile).1 =~= "</p>"@);
}

/// A fenced block and the end make the block and nothing else.
pub proof fn lemma_render_code_block(language: Option<Seq<char>>, body: Seq<char>)
    ensures
        render_run(seq![SpecToken::CodeBlock(language, body), SpecToken::EndOfFile]) == (
            RenderState::start(),
            code_block_html(language, body),
        ),
{
    let none = Seq::<SpecToken>::empty();
    let block = SpecToken::CodeBlock(language, body);
    lemma_render_push(none, block);
    lemma_render_push(none.push(block), SpecToken::EndOfFile);
    assert(seq![block, SpecToken::EndOfFile] =~= none.push(block).push(SpecToken::EndOfFile));
    assert(render_step(RenderState::start(), SpecToken::EndOfFile).1 =~= Seq::<char>::empty());
    assert(render_run(none.push(block)).1 =~= code_block_html(language, body));
}

/// Bold and italic text are open exactly behind an odd number of their
/// delimiters since the last end token: each kind is toggled by its own
/// delimiter and closed by the end, and by nothing else.
pub proof fn lemma_emphasis_parity(tokens: Seq<SpecToken>)
    ensures
        render_run(tokens).0.bold == (emphasis_count(tokens, true) % 2 == 1),
        render_run(tokens).0.italic == (emphasis_count(tokens, false) % 2 == 1),
    decreases tokens.len(),
{
    if tokens.len() > 0 {
        lemma_emphasis_parity(tokens.drop_last());
    }
}

/// The end closes everything: behind it no heading, paragraph, list item or
/// list is open, and neither bold nor italic text, whatever was open before.
/// A paragraph break closes every block.
pub proof fn lemma_boundary_closes_blocks(state: RenderState)
    ensures
        render_step(state, SpecToken::EndOfFile).0.all_closed(),
        render_step(state, SpecToken::DoubleNewline).0.blocks_closed(),
{
}

/// The end appends the end tag of italic text exactly where italic text is
/// open, then that of bold text exactly where bold text is open, and then
/// what a paragraph break appends.
pub proof fn lemma_end_closes_emphasis(state: RenderState)
    ensures
        render_step(state, SpecToken::EndOfFile).1 == text_if(state.italic, "</i>"@) + text_if(
            state.bold,
            "</b>"@,
        ) + render_step(state, SpecToken::DoubleNewline).1,
{
}

/// What a delimiter appends: the start tag where its emphasis is closed, the
/// end tag where it is open, behind the paragraph tag where no block is open.
pub proof fn lemma_delimiter_tags(state: RenderState, bold: bool)
    ensures
        render_step(state, emphasis_token(bold)).1 == block_start(state) + if emphasis_open(
            state,
            bold,
        ) {
            emphasis_end_tag(bold)
        } else {
            emphasis_start_tag(bold)
        },
        emphasis_opened_by(state, emphasis_token(bold), bold) + emphasis_closed_by(
            state,
            emphasis_token(bold),
            bold,
        ) == 1,
{
}

/// Every tag of bold text and of italic text is accounted for: the start
/// tags of a fragment are as many as its end tags, and one more where the
/// emphasis is open behind it. Behind the end token they are as many.
pub proof fn lemma_emphasis_tags_balance(tokens: Seq<SpecToken>, bold: bool)
    ensures
        emphasis_opened(tokens, bold) == emphasis_closed(tokens, bold) + if emphasis_open(
            render_run(tokens).0,
            bold,
        ) {
            1nat
        } else {
            0nat
        },
        tokens.len() > 0 && tokens.last() is EndOfFile ==> emphasis_opened(tokens, bold)
            == emphasis_closed(tokens, bold),
    decreases tokens.len(),
{
    if tokens.len() > 0 {
        lemma_emphasis_tags_balance(tokens.drop_last(), bold);
    }
}

/// A sequence of tokens that ends with the end token leaves nothing open: no
/// block, and neither bold nor italic text.
pub proof fn lemma_end_leaves_nothing_open(tokens: Seq<SpecToken>)
    requires
        tokens.len() > 0,
        tokens.last() is EndOfFile,
    ensures
        render_run(tokens).0.all_closed(),
{
}

/// No token closes more lists than are open, and a token that closes lists
/// appends their end tags before any start tag: so at no point of a fragment
/// have more lists been closed than opened.
pub proof fn lemma_step_closes_open_lists(state: RenderState, token: SpecToken)
    ensures
        lists_closed_by(state, token) <= state.open_lists,
        render_step(state, token).0.open_lists == state.open_lists - lists_closed_by(state, token)
            + lists_opened_by(state, token),
        token matches SpecToken::UnorderedBullet(depth) ==> render_step(state, token).1
            == repeated("</ul>"@, lists_closed_by(state, token)) + repeated(
            "<ul>"@,
            lists_opened_by(state, token),
        ) + "<li>"@,
        token is DoubleNewline ==> render_step(state, token).1 == heading_ends(state) + text_if(
            state.paragraph,
            "</p>"@,
        ) + text_if(state.list_item, "</li>"@) + repeated(
            "</ul>"@,
            lists_closed_by(state, token),
        ),
{
}

/// Every list tag is accounted for: the lists that a fragment opens are
/// those that it closes and those that are open behind it. Behind a
/// paragraph break or the end every list that was opened is closed.
pub proof fn lemma_list_tags_balance(tokens: Seq<SpecToken>)
    ensures
        lists_opened(tokens) == lists_closed(tokens) + render_run(tokens).0.open_lists,
        tokens.len() > 0 && (tokens.last() is EndOfFile || tokens.last() is DoubleNewline)
            ==> lists_opened(tokens) == lists_closed(tokens),
    decreases tokens.len(),
{
    if tokens.len() > 0 {
        lemma_list_tags_balance(tokens.drop_last());
        lemma_step_closes_open_lists(render_run(tokens.drop_last()).0, tokens.last());
    }
}

/// At no point of a fragment have more lists been closed than opened: not
/// behind any of its tokens, and not behind the end tags that a token
/// appends.
pub proof fn lemma_list_tags_never_overdrawn(tokens: Seq<SpecToken>, token: SpecToken)
    ensures
        lists_closed(tokens) <= lists_opened(tokens),
        lists_closed(tokens) + lists_closed_by(render_run(tokens).0, token) <= lists_opened(
            tokens,
        ),
{
    lemma_list_tags_balance(tokens);
    lemma_step_closes_open_lists(render_run(tokens).0, token);
}

/// A line break closes no paragraph and appends no character of its own: in
/// a paragraph it leaves a space pending, which the next text begins with.
pub proof fn lemma_soft_break(state: RenderState, text: Seq<char>)
    requires
        state.paragraph,
        !state.heading_open(),
        !state.list_item,
    ensures
        render_step(state, SpecToken::Newline) == (
            RenderState { pending_space: true, ..state },
            Seq::<char>::empty(),
        ),
        render_step(render_step(state, SpecToken::Newline).0, SpecToken::Text(text)) == (
            RenderState { pending_space: false, ..state },
            " "@ + text,
        ),
{
    assert(render_step(state, SpecToken::Newline).1 =~= Seq::<char>::empty());
    let broken = render_step(state, SpecToken::Newline).0;
    assert(render_step(broken, SpecToken::Text(text)).1 =~= " "@ + text);
}

/// A paragraph break closes the open paragraph, and the text behind it opens
/// a new one.
pub proof fn lemma_hard_break(state: RenderState, text: Seq<char>)
    requires
        state.paragraph,
        !state.heading_open(),
        !state.list_item,
        state.open_lists == 0,
        !state.pending_space,
    ensures
        render_step(state, SpecToken::DoubleNewline) == (
            RenderState { paragraph: false, ..state },
            "</p>"@,
        ),
        render_step(render_step(state, SpecToken::DoubleNewline).0, SpecToken::Text(text)) == (
            state,
            "<p>"@ + text,
        ),
{
    assert(render_step(state, SpecToken::DoubleNewline).1 =~= "</p>"@);
    let broken = render_step(state, SpecToken::DoubleNewline).0;
    assert(render_step(broken, SpecToken::Text(text)).1 =~= "<p>"@ + text);
}

/// A fenced block is rendered the same in every state, and leaves the state
/// as it is.
pub proof fn lemma_code_block_stands_alone(
    state: RenderState,
    language: Option<Seq<char>>,
    body: Seq<char>,
)
    ensures
        render_step(state, SpecToken::CodeBlock(language, body)) == (
            state,
            code_block_html(language, body),
        ),
        language is None ==> code_block_html(language, body) == "<pre><code>"@ + body
            + "</code></pre>"@,
        language matches Some(tag) ==> code_block_html(language, body)
            == "<pre><code class=\"language-"@ + tag + "\">"@ + body + "</code></pre>"@,
{
    reveal_strlit("<pre>");
    reveal_strlit("<code>");
    reveal_strlit("<pre><code>");
    reveal_strlit("<code class=\"language-");
    reveal_strlit("<pre><code class=\"language-");
    assert("<pre>"@ + "<code>"@ =~= "<pre><code>"@);
    assert("<pre>"@ + "<code class=\"language-"@ =~= "<pre><code class=\"language-"@);
}

/// Emphasis delimiters toggle: the second of two closes what the first has
/// opened, and the state of the emphasis is as before.
pub proof fn lemma_emphasis_toggles(state: RenderState)
    requires
        state.block_open(),
    ensures
        !state.bold ==> render_step(state, SpecToken::Bold).1 == "<b>"@ && render_step(
            render_step(state, SpecToken::Bold).0,
            SpecToken::Bold,
        ) == (state, "</b>"@),
        !state.italic ==> render_step(state, SpecToken::Italic).1 == "<i>"@ && render_step(
            render_step(state, SpecToken::Italic).0,
            SpecToken::Italic,
        ) == (state, "</i>"@),
{
    assert(Seq::<char>::empty() + "<b>"@ =~= "<b>"@);
    assert(Seq::<char>::empty() + "</b>"@ =~= "</b>"@);
    assert(Seq::<char>::empty() + "<i>"@ =~= "<i>"@);
    assert(Seq::<char>::empty() + "</i>"@ =~= "</i>"@);
}

} // verus!
