//! The renderer: from a sequence of tokens to an HTML fragment.
//!
//! The renderer keeps track of which elements are open. What each token does
//! to that state, and what it appends to the fragment, is stated as spec
//! functions on a [`RenderState`]; the executable renderer follows them.
//! The end token closes whatever is open. Text is copied as it is: nothing
//! is escaped.

use crate::token::{heading_token, token_views, SpecToken, Token};
use vstd::prelude::*;
use vstd::string::StringExecFns;

verus! {

/// Why a sequence of tokens has no rendering.
#[derive(Debug, Clone, Copy, PartialEq, Eq)]
pub enum RenderError {
    /// The sequence holds a token that could not be classified.
    IllegalToken,
}

/// Which elements are open at some point of a fragment.
pub struct RenderState {
    pub h1: bool,
    pub h2: bool,
    pub h3: bool,
    pub h4: bool,
    pub h5: bool,
    pub h6: bool,
    pub paragraph: bool,
    /// The number of lists that are open, one inside the other.
    pub open_lists: nat,
    pub list_item: bool,
    pub bold: bool,
    pub italic: bool,
    /// A line break inside a paragraph waits to become a space before the
    /// next text.
    pub pending_space: bool,
}

impl RenderState {
    /// Nothing is open.
    pub open spec fn start() -> RenderState {
        RenderState {
            h1: false,
            h2: false,
            h3: false,
            h4: false,
            h5: false,
            h6: false,
            paragraph: false,
            open_lists: 0,
            list_item: false,
            bold: false,
            italic: false,
            pending_space: false,
        }
    }

    /// A heading of some level is open.
    pub open spec fn heading_open(self) -> bool {
        self.h1 || self.h2 || self.h3 || self.h4 || self.h5 || self.h6
    }

    /// A container for inline content is open: a heading, a paragraph or a
    /// list item.
    pub open spec fn block_open(self) -> bool {
        self.list_item || self.heading_open() || self.paragraph
    }

    /// No heading, paragraph, list item or list is open.
    pub open spec fn blocks_closed(self) -> bool {
        !self.block_open() && self.open_lists == 0
    }

    /// Nothing is open: no block, and neither bold nor italic text.
    pub open spec fn all_closed(self) -> bool {
        self.blocks_closed() && !self.bold && !self.italic
    }

    /// This state with no heading open.
    pub open spec fn without_headings(self) -> RenderState {
        RenderState { h1: false, h2: false, h3: false, h4: false, h5: false, h6: false, ..self }
    }

    /// This state inside a block: where none is open, a paragraph is.
    pub open spec fn inside_block(self) -> RenderState {
        if self.block_open() {
            self
        } else {
            RenderState { paragraph: true, ..self }
        }
    }
}

/// `text` where `condition` holds, nothing elsewhere.
pub open spec fn text_if(condition: bool, text: Seq<char>) -> Seq<char> {
    if condition {
        text
    } else {
        Seq::empty()
    }
}

/// `text`, `times` times in a row.
pub open spec fn repeated(text: Seq<char>, times: nat) -> Seq<char>
    decreases times,
{
    if times == 0 {
        Seq::empty()
    } else {
        repeated(text, (times - 1) as nat) + text
    }
}

/// The paragraph tag that opens a block where none is open.
pub open spec fn block_start(state: RenderState) -> Seq<char> {
    text_if(!state.block_open(), "<p>"@)
}

/// The end tags of the open headings, from level one to level six.
pub open spec fn heading_ends(state: RenderState) -> Seq<char> {
    text_if(state.h1, "</h1>"@) + text_if(state.h2, "</h2>"@) + text_if(state.h3, "</h3>"@)
        + text_if(state.h4, "</h4>"@) + text_if(state.h5, "</h5>"@) + text_if(
        state.h6,
        "</h6>"@,
    )
}

/// A fenced block: preformatted code, with the language as a class where
/// there is one.
pub open spec fn code_block_html(language: Option<Seq<char>>, body: Seq<char>) -> Seq<char> {
    match language {
        Some(tag) => "<pre>"@ + "<code class=\"language-"@ + tag + "\">"@ + body
            + "</code></pre>"@,
        None => "<pre>"@ + "<code>"@ + body + "</code></pre>"@,
    }
}

/// Text stands inside a block. A pending space comes before it.
pub open spec fn render_text(state: RenderState, text: Seq<char>) -> (RenderState, Seq<char>) {
    (
        RenderState { pending_space: false, ..state.inside_block() },
        block_start(state) + text_if(state.pending_space, " "@) + text,
    )
}

/// Inline code stands inside a block.
pub open spec fn render_code(state: RenderState, code: Seq<char>) -> (RenderState, Seq<char>) {
    (state.inside_block(), block_start(state) + "<code>"@ + code + "</code>"@)
}

/// How many lists a list item at `depth` closes where `open_lists` are open:
/// those beyond the `depth + 1` that it stands in.
pub open spec fn lists_to_close(open_lists: nat, depth: nat) -> nat {
    if open_lists > depth + 1 {
        (open_lists - (depth + 1)) as nat
    } else {
        0
    }
}

/// How many lists a list item at `depth` opens where `open_lists` are open:
/// those that are missing of the `depth + 1` that it stands in.
pub open spec fn lists_to_open(open_lists: nat, depth: nat) -> nat {
    if open_lists < depth + 1 {
        (depth + 1 - open_lists) as nat
    } else {
        0
    }
}

/// A list item at `depth` stands in `depth + 1` lists: lists beyond that are
/// closed, missing ones are opened, and the item is opened.
pub open spec fn render_bullet(state: RenderState, depth: nat) -> (RenderState, Seq<char>) {
    (
        RenderState { open_lists: depth + 1, list_item: true, ..state },
        repeated("</ul>"@, lists_to_close(state.open_lists, depth)) + repeated(
            "<ul>"@,
            lists_to_open(state.open_lists, depth),
        ) + "<li>"@,
    )
}

/// A bold delimiter stands inside a block and opens or closes bold text.
pub open spec fn render_bold(state: RenderState) -> (RenderState, Seq<char>) {
    (
        RenderState { bold: !state.bold, ..state.inside_block() },
        block_start(state) + if state.bold {
            "</b>"@
        } else {
            "<b>"@
        },
    )
}

/// An italic delimiter stands inside a block and opens or closes italic text.
pub open spec fn render_italic(state: RenderState) -> (RenderState, Seq<char>) {
    (
        RenderState { italic: !state.italic, ..state.inside_block() },
        block_start(state) + if state.italic {
            "</i>"@
        } else {
            "<i>"@
        },
    )
}

/// A boundary closes the open headings and the open list item. A line break
/// inside a paragraph keeps the paragraph open and leaves a space pending. A
/// paragraph break or the end (`closing`) closes the paragraph and every
/// list; neither appends a break element of its own. Bold and italic text
/// stay open across a line break and a paragraph break; the end closes them
/// (see [`render_end`]).
pub open spec fn render_boundary(state: RenderState, closing: bool) -> (RenderState, Seq<char>) {
    (
        RenderState {
            paragraph: state.paragraph && !closing,
            pending_space: state.pending_space || (state.paragraph && !closing),
            list_item: false,
            open_lists: if closing {
                0
            } else {
                state.open_lists
            },
            ..state.without_headings()
        },
        heading_ends(state) + text_if(state.paragraph && closing, "</p>"@) + text_if(
            state.list_item,
            "</li>"@,
        ) + text_if(closing, repeated("</ul>"@, state.open_lists)),
    )
}

/// The end tags of the open inline elements: that of italic text first, then
/// that of bold text.
///
/// The state keeps no order of the two. Where both are open, italic text is
/// taken to be the inner one, as it is in `***a`, which opens bold text
/// first.
pub open spec fn emphasis_ends(state: RenderState) -> Seq<char> {
    text_if(state.italic, "</i>"@) + text_if(state.bold, "</b>"@)
}

/// The end closes everything that is open: italic and bold text first, then
/// what a paragraph break closes. Behind it nothing is open. Bold or italic
/// text that was opened in a block which has been closed since is closed
/// here all the same.
pub open spec fn render_end(state: RenderState) -> (RenderState, Seq<char>) {
    (
        RenderState { bold: false, italic: false, ..render_boundary(state, true).0 },
        emphasis_ends(state) + render_boundary(state, true).1,
    )
}

/// The start tag of a heading of `level`, from one to six.
pub open spec fn heading_start_tag(level: int) -> Seq<char> {
    if level == 1 {
        "<h1>"@
    } else if level == 2 {
        "<h2>"@
    } else if level == 3 {
        "<h3>"@
    } else if level == 4 {
        "<h4>"@
    } else if level == 5 {
        "<h5>"@
    } else {
        "<h6>"@
    }
}

/// The end tag of a heading of `level`, from one to six.
pub open spec fn heading_end_tag(level: int) -> Seq<char> {
    if level == 1 {
        "</h1>"@
    } else if level == 2 {
        "</h2>"@
    } else if level == 3 {
        "</h3>"@
    } else if level == 4 {
        "</h4>"@
    } else if level == 5 {
        "</h5>"@
    } else {
        "</h6>"@
    }
}

/// The delimiter of bold text, or that of italic text.
pub open spec fn emphasis_token(bold: bool) -> SpecToken {
    if bold {
        SpecToken::Bold
    } else {
        SpecToken::Italic
    }
}

/// The start tag of bold text, or that of italic text.
pub open spec fn emphasis_start_tag(bold: bool) -> Seq<char> {
    if bold {
        "<b>"@
    } else {
        "<i>"@
    }
}

/// The end tag of bold text, or that of italic text.
pub open spec fn emphasis_end_tag(bold: bool) -> Seq<char> {
    if bold {
        "</b>"@
    } else {
        "</i>"@
    }
}

/// What one token does to the state, and what it appends to the fragment.
/// An illegal token has no rendering: here it does nothing.
pub open spec fn render_step(state: RenderState, token: SpecToken) -> (RenderState, Seq<char>) {
    match token {
        SpecToken::Text(text) => render_text(state, text),
        SpecToken::Code(code) => render_code(state, code),
        SpecToken::CodeBlock(language, body) => (state, code_block_html(language, body)),
        SpecToken::Heading1 => (RenderState { h1: true, ..state }, "<h1>"@),
        SpecToken::Heading2 => (RenderState { h2: true, ..state }, "<h2>"@),
        SpecToken::Heading3 => (RenderState { h3: true, ..state }, "<h3>"@),
        SpecToken::Heading4 => (RenderState { h4: true, ..state }, "<h4>"@),
        SpecToken::Heading5 => (RenderState { h5: true, ..state }, "<h5>"@),
        SpecToken::Heading6 => (RenderState { h6: true, ..state }, "<h6>"@),
        SpecToken::UnorderedBullet(depth) => render_bullet(state, depth),
        SpecToken::Bold => render_bold(state),
        SpecToken::Italic => render_italic(state),
        SpecToken::Newline => render_boundary(state, false),
        SpecToken::DoubleNewline => render_boundary(state, true),
        SpecToken::EndOfFile => render_end(state),
        SpecToken::Illegal => (state, Seq::empty()),
    }
}

/// The state behind `tokens` and the fragment that they make, from a state
/// in which nothing is open.
pub open spec fn render_run(tokens: Seq<SpecToken>) -> (RenderState, Seq<char>)
    decreases tokens.len(),
{
    if tokens.len() == 0 {
        (RenderState::start(), Seq::empty())
    } else {
        let (state, html) = render_run(tokens.drop_last());
        let (next, piece) = render_step(state, tokens.last());
        (next, html + piece)
    }
}

/// How many delimiters of bold text, or of italic text, `tokens` hold behind
/// their last end token.
pub open spec fn emphasis_count(tokens: Seq<SpecToken>, bold: bool) -> nat
    decreases tokens.len(),
{
    if tokens.len() == 0 || tokens.last() is EndOfFile {
        0
    } else if tokens.last() == emphasis_token(bold) {
        emphasis_count(tokens.drop_last(), bold) + 1
    } else {
        emphasis_count(tokens.drop_last(), bold)
    }
}

/// Whether bold text, or italic text, is open in `state`.
pub open spec fn emphasis_open(state: RenderState, bold: bool) -> bool {
    if bold {
        state.bold
    } else {
        state.italic
    }
}

/// How many start tags of bold text, or of italic text, `token` appends in
/// `state`: its delimiter opens it where it is closed.
pub open spec fn emphasis_opened_by(state: RenderState, token: SpecToken, bold: bool) -> nat {
    if token == emphasis_token(bold) && !emphasis_open(state, bold) {
        1
    } else {
        0
    }
}

/// How many end tags of bold text, or of italic text, `token` appends in
/// `state`: its delimiter and the end close it where it is open.
pub open spec fn emphasis_closed_by(state: RenderState, token: SpecToken, bold: bool) -> nat {
    if (token == emphasis_token(bold) || token is EndOfFile) && emphasis_open(state, bold) {
        1
    } else {
        0
    }
}

/// How many start tags of bold text, or of italic text, the fragment of
/// `tokens` holds.
pub open spec fn emphasis_opened(tokens: Seq<SpecToken>, bold: bool) -> nat
    decreases tokens.len(),
{
    if tokens.len() == 0 {
        0
    } else {
        emphasis_opened(tokens.drop_last(), bold) + emphasis_opened_by(
            render_run(tokens.drop_last()).0,
            tokens.last(),
            bold,
        )
    }
}

/// How many end tags of bold text, or of italic text, the fragment of
/// `tokens` holds.
pub open spec fn emphasis_closed(tokens: Seq<SpecToken>, bold: bool) -> nat
    decreases tokens.len(),
{
    if tokens.len() == 0 {
        0
    } else {
        emphasis_closed(tokens.drop_last(), bold) + emphasis_closed_by(
            render_run(tokens.drop_last()).0,
            tokens.last(),
            bold,
        )
    }
}

/// How many list start tags `token` appends in `state`: a list item opens the
/// lists that it stands in and that are not open.
pub open spec fn lists_opened_by(state: RenderState, token: SpecToken) -> nat {
    match token {
        SpecToken::UnorderedBullet(depth) => lists_to_open(state.open_lists, depth),
        _ => 0,
    }
}

/// How many list end tags `token` appends in `state`: a list item closes the
/// open lists that it does not stand in, a paragraph break and the end close
/// every open list.
pub open spec fn lists_closed_by(state: RenderState, token: SpecToken) -> nat {
    match token {
        SpecToken::UnorderedBullet(depth) => lists_to_close(state.open_lists, depth),
        SpecToken::DoubleNewline => state.open_lists,
        SpecToken::EndOfFile => state.open_lists,
        _ => 0,
    }
}

/// How many list start tags the fragment of `tokens` holds.
pub open spec fn lists_opened(tokens: Seq<SpecToken>) -> nat
    decreases tokens.len(),
{
    if tokens.len() == 0 {
        0
    } else {
        lists_opened(tokens.drop_last()) + lists_opened_by(
            render_run(tokens.drop_last()).0,
            tokens.last(),
        )
    }
}

/// How many list end tags the fragment of `tokens` holds.
pub open spec fn lists_closed(tokens: Seq<SpecToken>) -> nat
    decreases tokens.len(),
{
    if tokens.len() == 0 {
        0
    } else {
        lists_closed(tokens.drop_last()) + lists_closed_by(
            render_run(tokens.drop_last()).0,
            tokens.last(),
        )
    }
}

/// Whether some token of `tokens` is illegal.
pub open spec fn has_illegal(tokens: Seq<SpecToken>) -> bool {
    exists|i: int| 0 <= i < tokens.len() && tokens[i] is Illegal
}

/// The rendering of `tokens`: the fragment that they make, or an error where
/// one of them is illegal.
pub open spec fn render(tokens: Seq<SpecToken>) -> Result<Seq<char>, RenderError> {
    if has_illegal(tokens) {
        Err(RenderError::IllegalToken)
    } else {
        Ok(render_run(tokens).1)
    }
}

proof fn lemma_concat_assoc(a: Seq<char>, b: Seq<char>, c: Seq<char>)
    ensures
        (a + b) + c == a + (b + c),
{
    assert((a + b) + c =~= a + (b + c));
}

proof fn lemma_concat_empty(a: Seq<char>)
    ensures
        a + Seq::<char>::empty() == a,
{
    assert(a + Seq::<char>::empty() =~= a);
}

/// Appends `text` where `condition` holds.
fn append_if(html: &mut String, condition: bool, text: &str)
    ensures
        final(html)@ == old(html)@ + text_if(condition, text@),
{
    proof {
        lemma_concat_empty(html@);
    }
    if condition {
        html.append(text);
    }
}

/// Appends `tag`, `times` times.
fn repeat(html: &mut String, tag: &str, times: usize)
    ensures
        final(html)@ == old(html)@ + repeated(tag@, times as nat),
{
    proof {
        lemma_concat_empty(html@);
    }
    let mut done: usize = 0;
    while done < times
        invariant
            done <= times,
            html@ == old(html)@ + repeated(tag@, done as nat),
        decreases times - done,
    {
        proof {
            lemma_concat_assoc(old(html)@, repeated(tag@, done as nat), tag@);
        }
        html.append(tag);
        done += 1;
    }
}

/// The elements that are open at the end of the fragment under construction.
struct OpenElements {
    h1: bool,
    h2: bool,
    h3: bool,
    h4: bool,
    h5: bool,
    h6: bool,
    paragraph: bool,
    /// The depth of the innermost open list, counted from zero.
    innermost_list: Option<usize>,
    list_item: bool,
    bold: bool,
    italic: bool,
    pending_space: bool,
}

impl OpenElements {
    spec fn state(&self) -> RenderState {
        RenderState {
            h1: self.h1,
            h2: self.h2,
            h3: self.h3,
            h4: self.h4,
            h5: self.h5,
            h6: self.h6,
            paragraph: self.paragraph,
            open_lists: match self.innermost_list {
                Some(depth) => (depth + 1) as nat,
                None => 0,
            },
            list_item: self.list_item,
            bold: self.bold,
            italic: self.italic,
            pending_space: self.pending_space,
        }
    }

    fn new() -> (open: OpenElements)
        ensures
            open.state() == RenderState::start(),
    {
        OpenElements {
            h1: false,
            h2: false,
            h3: false,
            h4: false,
            h5: false,
            h6: false,
            paragraph: false,
            innermost_list: None,
            list_item: false,
            bold: false,
            italic: false,
            pending_space: false,
        }
    }

    fn enter_block(&mut self, html: &mut String)
        ensures
            final(self).state() == old(self).state().inside_block(),
            final(html)@ == old(html)@ + block_start(old(self).state()),
    {
        let block_open = self.list_item || self.h1 || self.h2 || self.h3 || self.h4 || self.h5
            || self.h6 || self.paragraph;
        append_if(html, !block_open, "<p>");
        if !block_open {
            self.paragraph = true;
        }
    }

    fn close_headings(&mut self, html: &mut String)
        ensures
            final(self).state() == old(self).state().without_headings(),
            final(html)@ == old(html)@ + heading_ends(old(self).state()),
    {
        let ghost before = html@;
        let ghost ends = text_if(self.h1, "</h1>"@);
        append_if(html, self.h1, "</h1>");
        append_if(html, self.h2, "</h2>");
        proof {
            lemma_concat_assoc(before, ends, text_if(self.h2, "</h2>"@));
            ends = ends + text_if(self.h2, "</h2>"@);
        }
        append_if(html, self.h3, "</h3>");
        proof {
            lemma_concat_assoc(before, ends, text_if(self.h3, "</h3>"@));
            ends = ends + text_if(self.h3, "</h3>"@);
        }
        append_if(html, self.h4, "</h4>");
        proof {
            lemma_concat_assoc(before, ends, text_if(self.h4, "</h4>"@));
            ends = ends + text_if(self.h4, "</h4>"@);
        }
        append_if(html, self.h5, "</h5>");
        proof {
            lemma_concat_assoc(before, ends, text_if(self.h5, "</h5>"@));
            ends = ends + text_if(self.h5, "</h5>"@);
        }
        append_if(html, self.h6, "</h6>");
        proof {
            lemma_concat_assoc(before, ends, text_if(self.h6, "</h6>"@));
        }
        self.h1 = false;
        self.h2 = false;
        self.h3 = false;
        self.h4 = false;
        self.h5 = false;
        self.h6 = false;
    }

    fn text(&mut self, html: &mut String, text: &String)
        ensures
            final(self).state() == render_text(old(self).state(), text@).0,
            final(html)@ == old(html)@ + render_text(old(self).state(), text@).1,
    {
        let ghost state = self.state();
        let ghost before = html@;
        self.enter_block(html);
        append_if(html, self.pending_space, " ");
        self.pending_space = false;
        html.append(text.as_str());
        proof {
            let start = block_start(state);
            let space = text_if(state.pending_space, " "@);
            lemma_concat_assoc(before, start, space);
            lemma_concat_assoc(before, start + space, text@);
        }
    }

    fn code(&mut self, html: &mut String, code: &String)
        ensures
            final(self).state() == render_code(old(self).state(), code@).0,
            final(html)@ == old(html)@ + render_code(old(self).state(), code@).1,
    {
        let ghost state = self.state();
        let ghost before = html@;
        self.enter_block(html);
        html.append("<code>");
        html.append(code.as_str());
        html.append("</code>");
        proof {
            let start = block_start(state);
            lemma_concat_assoc(before, start, "<code>"@);
            lemma_concat_assoc(before, start + "<code>"@, code@);
            lemma_concat_assoc(before, start + "<code>"@ + code@, "</code>"@);
        }
    }

    fn bullet(&mut self, html: &mut String, depth: usize)
        ensures
            final(self).state() == render_bullet(old(self).state(), depth as nat).0,
            final(html)@ == old(html)@ + render_bullet(old(self).state(), depth as nat).1,
    {
        let ghost before = html@;
        let ghost closed;
        let ghost opened;
        match self.innermost_list {
            None => {
                repeat(html, "</ul>", 0);
                repeat(html, "<ul>", depth);
                html.append("<ul>");
                proof {
                    closed = repeated("</ul>"@, 0);
                    opened = repeated("<ul>"@, (depth + 1) as nat);
                    lemma_concat_assoc(before + closed, repeated("<ul>"@, depth as nat), "<ul>"@);
                }
            },
            Some(innermost) => {
                if innermost > depth {
                    repeat(html, "</ul>", innermost - depth);
                    repeat(html, "<ul>", 0);
                    proof {
                        closed = repeated("</ul>"@, (innermost - depth) as nat);
                        opened = repeated("<ul>"@, 0);
                    }
                } else {
                    repeat(html, "</ul>", 0);
                    repeat(html, "<ul>", depth - innermost);
                    proof {
                        closed = repeated("</ul>"@, 0);
                        opened = repeated("<ul>"@, (depth - innermost) as nat);
                    }
                }
            },
        }
        assert(html@ == before + closed + opened);
        self.innermost_list = Some(depth);
        html.append("<li>");
        self.list_item = true;
        proof {
            lemma_concat_assoc(before, closed, opened);
            lemma_concat_assoc(before, closed + opened, "<li>"@);
        }
    }

    fn bold(&mut self, html: &mut String)
        ensures
            final(self).state() == render_bold(old(self).state()).0,
            final(html)@ == old(html)@ + render_bold(old(self).state()).1,
    {
        let ghost state = self.state();
        let ghost before = html@;
        self.enter_block(html);
        let tag = if self.bold {
            "</b>"
        } else {
            "<b>"
        };
        html.append(tag);
        self.bold = !self.bold;
        proof {
            lemma_concat_assoc(before, block_start(state), tag@);
        }
    }

    fn italic(&mut self, html: &mut String)
        ensures
            final(self).state() == render_italic(old(self).state()).0,
            final(html)@ == old(html)@ + render_italic(old(self).state()).1,
    {
        let ghost state = self.state();
        let ghost before = html@;
        self.enter_block(html);
        let tag = if self.italic {
            "</i>"
        } else {
            "<i>"
        };
        html.append(tag);
        self.italic = !self.italic;
        proof {
            lemma_concat_assoc(before, block_start(state), tag@);
        }
    }

    /// Closes every open list where `closing` is set.
    fn close_lists(&mut self, html: &mut String, closing: bool)
        ensures
            final(self).state() == (RenderState {
                open_lists: if closing {
                    0
                } else {
                    old(self).state().open_lists
                },
                ..old(self).state()
            }),
            final(html)@ == old(html)@ + text_if(
                closing,
                repeated("</ul>"@, old(self).state().open_lists),
            ),
    {
        let ghost before = html@;
        proof {
            lemma_concat_empty(before);
        }
        if closing {
            match self.innermost_list {
                Some(innermost) => {
                    repeat(html, "</ul>", innermost);
                    html.append("</ul>");
                    self.innermost_list = None;
                    proof {
                        lemma_concat_assoc(before, repeated("</ul>"@, innermost as nat), "</ul>"@);
                    }
                },
                None => {},
            }
        }
    }

    fn boundary(&mut self, html: &mut String, closing: bool)
        ensures
            final(self).state() == render_boundary(old(self).state(), closing).0,
            final(html)@ == old(html)@ + render_boundary(old(self).state(), closing).1,
    {
        let ghost state = self.state();
        let ghost before = html@;
        self.close_headings(html);
        append_if(html, self.paragraph && closing, "</p>");
        append_if(html, self.list_item, "</li>");
        if self.paragraph && !closing {
            self.pending_space = true;
        }
        if closing {
            self.paragraph = false;
        }
        self.list_item = false;
        self.close_lists(html, closing);
        proof {
            let headings = heading_ends(state);
            let paragraph = text_if(state.paragraph && closing, "</p>"@);
            let item = text_if(state.list_item, "</li>"@);
            let lists = text_if(closing, repeated("</ul>"@, state.open_lists));
            lemma_concat_assoc(before, headings, paragraph);
            lemma_concat_assoc(before, headings + paragraph, item);
            lemma_concat_assoc(before, headings + paragraph + item, lists);
        }
    }

    fn end(&mut self, html: &mut String)
        ensures
            final(self).state() == render_end(old(self).state()).0,
            final(html)@ == old(html)@ + render_end(old(self).state()).1,
    {
        let ghost state = self.state();
        let ghost before = html@;
        append_if(html, self.italic, "</i>");
        append_if(html, self.bold, "</b>");
        self.italic = false;
        self.bold = false;
        self.boundary(html, true);
        proof {
            let italic = text_if(state.italic, "</i>"@);
            let bold = text_if(state.bold, "</b>"@);
            lemma_concat_assoc(before, italic, bold);
            lemma_concat_assoc(before, italic + bold, render_boundary(state, true).1);
            assert(render_boundary(
                RenderState { bold: false, italic: false, ..state },
                true,
            ).1 == render_boundary(state, true).1);
        }
    }

    fn heading(&mut self, html: &mut String, level: u8)
        requires
            1 <= level <= 6,
        ensures
            final(self).state() == render_step(old(self).state(), heading_token(level as int)).0,
            final(html)@ == old(html)@ + render_step(
                old(self).state(),
                heading_token(level as int),
            ).1,
    {
        if level == 1 {
            html.append("<h1>");
            self.h1 = true;
        } else if level == 2 {
            html.append("<h2>");
            self.h2 = true;
        } else if level == 3 {
            html.append("<h3>");
            self.h3 = true;
        } else if level == 4 {
            html.append("<h4>");
            self.h4 = true;
        } else if level == 5 {
            html.append("<h5>");
            self.h5 = true;
        } else {
            html.append("<h6>");
            self.h6 = true;
        }
    }

    /// Renders one token. An illegal token is not rendered: nothing changes
    /// and the result is `false`.
    fn token(&mut self, html: &mut String, token: &Token) -> (rendered: bool)
        ensures
            rendered == !(token@ is Illegal),
            final(self).state() == render_step(old(self).state(), token@).0,
            final(html)@ == old(html)@ + render_step(old(self).state(), token@).1,
    {
        match token {
            Token::Text(text) => self.text(html, text),
            Token::Code(code) => self.code(html, code),
            Token::CodeBlock(language, body) => code_block(html, language, body),
            Token::Heading1 => self.heading(html, 1),
            Token::Heading2 => self.heading(html, 2),
            Token::Heading3 => self.heading(html, 3),
            Token::Heading4 => self.heading(html, 4),
            Token::Heading5 => self.heading(html, 5),
            Token::Heading6 => self.heading(html, 6),
            Token::UnorderedBullet(depth) => self.bullet(html, *depth),
            Token::Bold => self.bold(html),
            Token::Italic => self.italic(html),
            Token::Newline => self.boundary(html, false),
            Token::DoubleNewline => self.boundary(html, true),
            Token::EndOfFile => self.end(html),
            Token::Illegal => {
                proof {
                    lemma_concat_empty(html@);
                }
                return false;
            },
        }
        true
    }
}

/// Appends a fenced block.
fn code_block(html: &mut String, language: &Option<String>, body: &String)
    ensures
        final(html)@ == old(html)@ + code_block_html(
            match language {
                Some(tag) => Some(tag@),
                None => None,
            },
            body@,
        ),
{
    let ghost before = html@;
    html.append("<pre>");
    let ghost piece = "<pre>"@;
    match language {
        Some(tag) => {
            html.append("<code class=\"language-");
            html.append(tag.as_str());
            html.append("\">");
            proof {
                lemma_concat_assoc(before, piece, "<code class=\"language-"@);
                piece = piece + "<code class=\"language-"@;
                lemma_concat_assoc(before, piece, tag@);
                piece = piece + tag@;
                lemma_concat_assoc(before, piece, "\">"@);
                piece = piece + "\">"@;
            }
        },
        None => {
            html.append("<code>");
            proof {
                lemma_concat_assoc(before, piece, "<code>"@);
                piece = piece + "<code>"@;
            }
        },
    }
    html.append(body.as_str());
    html.append("</code></pre>");
    proof {
        lemma_concat_assoc(before, piece, body@);
        lemma_concat_assoc(before, piece + body@, "</code></pre>"@);
    }
}

/// Renders `tokens` as an HTML fragment. Every token of the sequence is
/// rendered, in order; a sequence with an illegal token has no rendering.
pub fn render_html(tokens: Vec<Token>) -> (html: Result<String, RenderError>)
    ensures
        match render(token_views(tokens@)) {
            Ok(text) => html matches Ok(fragment) && fragment@ == text,
            Err(error) => html == Err::<String, RenderError>(error),
        },
{
    let ghost views = token_views(tokens@);
    let mut open = OpenElements::new();
    let mut html = String::new();
    let mut i: usize = 0;
    while i < tokens.len()
        invariant
            i <= tokens.len(),
            views == token_views(tokens@),
            forall|j: int| 0 <= j < i ==> !(views[j] is Illegal),
            (open.state(), html@) == render_run(views.take(i as int)),
        decreases tokens.len() - i,
    {
        let rendered = open.token(&mut html, &tokens[i]);
        if !rendered {
            assert(views[i as int] is Illegal);
            return Err(RenderError::IllegalToken);
        }
        assert(views.take(i + 1).drop_last() =~= views.take(i as int));
        i += 1;
    }
    assert(views.take(i as int) =~= views);
    Ok(html)
}

} // verus!
