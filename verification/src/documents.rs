//! What the conversion makes of documents of a given shape.
//!
//! Every lemma of this module speaks of all documents of one shape: a
//! heading, two paragraphs, a list of two items, a fenced block. The texts
//! in them are plain: they hold no character that the lexer gives a meaning
//! to.

use crate::document_bytes::{
    emphasis_marks, is_plain, lemma_code_bytes, lemma_emphasis_bytes, lemma_fenced_block_bytes,
    lemma_heading_bytes, lemma_long_heading_bytes, lemma_nested_item_bytes,
    lemma_paragraphs_bytes, lemma_soft_break_bytes, run_of,
};
use crate::encoding::{
    lemma_ascii_byte_is_char, lemma_encode_ascii, lemma_encode_concat, lemma_encode_len,
    lemma_without_carriage_returns_adds_nothing, lemma_without_carriage_returns_concat,
};
use crate::html::{
    code_block_html, emphasis_end_tag, emphasis_start_tag, heading_end_tag, heading_start_tag,
    render_run, repeated, RenderError,
};
use crate::lexer::{
    lemma_lex_ends_once, lemma_without_carriage_returns, text_of, without_carriage_returns,
    LexerState,
};
use crate::scan::{
    is_text_stop, ASTERISK, BACKTICK, CARRIAGE_RETURN, DASH, HASH, LESS_THAN, LINE_FEED, SPACE,
};
use crate::tags::{
    lemma_fragment_closes_its_tags, lemma_fragment_closes_nothing_unopened,
    lemma_tokens_are_tagless, tag_count, TagKind,
};
use crate::{html_of, tokens_of};
use vstd::prelude::*;
use vstd::utf8::{encode_utf8, encode_utf8_decode_utf8, encode_utf8_valid_utf8};

verus! {

/// Whether `c` is a character that means something to the lexer inside
/// text: a heading, code or emphasis marker, a line break, a carriage return
/// or the end sentinel.
pub open spec fn is_marker(c: char) -> bool {
    c == '#' || c == '`' || c == '*' || c == '\n' || c == '\r' || c == '\0'
}

/// `text` holds no marker.
pub open spec fn is_plain_text(text: Seq<char>) -> bool {
    forall|i: int| 0 <= i < text.len() ==> !is_marker(#[trigger] text[i])
}

/// `count` times the character `c`.
pub open spec fn chars_of(c: char, count: nat) -> Seq<char> {
    Seq::new(count, |i: int| c)
}

/// The bytes of plain text are plain, and they encode the text.
pub proof fn lemma_plain_text_bytes(text: Seq<char>)
    requires
        is_plain_text(text),
    ensures
        is_plain(encode_utf8(text)),
        without_carriage_returns(encode_utf8(text)) == encode_utf8(text),
        text_of(encode_utf8(text)) == text,
        text.len() > 0 <==> encode_utf8(text).len() > 0,
        text.len() > 0 && text[0] != '-' ==> encode_utf8(text)[0] != DASH,
        text.len() > 0 && text[0] != ' ' ==> encode_utf8(text)[0] != SPACE,
{
    let bytes = encode_utf8(text);
    lemma_encode_len(text);
    encode_utf8_valid_utf8(text);
    encode_utf8_decode_utf8(text);
    assert forall|i: int| 0 <= i < bytes.len() implies !is_text_stop(#[trigger] bytes[i])
        && bytes[i] != CARRIAGE_RETURN by {
        if bytes[i] < 0x80 {
            lemma_ascii_byte_is_char(text, i);
            let j = choose|j: int| 0 <= j < text.len() && text[j] == bytes[i] as char;
            assert(!is_marker(text[j]));
        }
    }
    lemma_without_carriage_returns(bytes);
    if text.len() > 0 && bytes[0] < 0x80 {
        lemma_ascii_byte_is_char(text, 0);
    }
}

/// The bytes of a run of one ASCII character.
proof fn lemma_run_bytes(c: char, byte: u8, count: nat)
    requires
        c == byte as char,
        byte < 0x80,
    ensures
        encode_utf8(chars_of(c, count)) == run_of(byte, count),
{
    lemma_encode_ascii(chars_of(c, count));
    assert(encode_utf8(chars_of(c, count)) =~= run_of(byte, count));
}

/// For every level from one to six and every plain text that begins neither
/// with a space nor with `-`: a document of that many `#`, a space and the
/// text becomes one heading of that level around the text.
pub proof fn lemma_heading_document(level: nat, text: Seq<char>)
    requires
        1 <= level <= 6,
        is_plain_text(text),
        text.len() > 0 ==> text[0] != ' ' && text[0] != '-',
    ensures
        html_of(chars_of('#', level) + seq![' '] + text) == Ok::<Seq<char>, RenderError>(
            heading_start_tag(level as int) + text + heading_end_tag(level as int),
        ),
{
    let markdown = chars_of('#', level) + seq![' '] + text;
    let bytes = run_of(HASH, level) + seq![SPACE] + encode_utf8(text);
    lemma_plain_text_bytes(text);
    lemma_encode_concat(chars_of('#', level) + seq![' '], text);
    lemma_encode_concat(chars_of('#', level), seq![' ']);
    lemma_run_bytes('#', HASH, level);
    assert(seq![' '] =~= chars_of(' ', 1));
    lemma_run_bytes(' ', SPACE, 1);
    assert(run_of(SPACE, 1) =~= seq![SPACE]);
    assert(encode_utf8(markdown) == bytes);
    lemma_without_carriage_returns(run_of(HASH, level));
    lemma_without_carriage_returns(seq![SPACE]);
    lemma_without_carriage_returns_concat(run_of(HASH, level), seq![SPACE]);
    lemma_without_carriage_returns_concat(run_of(HASH, level) + seq![SPACE], encode_utf8(text));
    lemma_heading_bytes(level, encode_utf8(text));
}

/// A document that begins with more than six `#` has no rendering.
pub proof fn lemma_long_heading_document(markdown: Seq<char>)
    requires
        markdown.len() > 6,
        forall|i: int| 0 <= i <= 6 ==> markdown[i] == '#',
    ensures
        tokens_of(markdown)[0] is Illegal,
        html_of(markdown) == Err::<Seq<char>, RenderError>(RenderError::IllegalToken),
{
    let head = markdown.take(7);
    let tail = markdown.skip(7);
    assert(markdown =~= head + tail);
    assert(head =~= chars_of('#', 7));
    lemma_encode_concat(head, tail);
    lemma_run_bytes('#', HASH, 7);
    lemma_without_carriage_returns(run_of(HASH, 7));
    lemma_without_carriage_returns_concat(run_of(HASH, 7), encode_utf8(tail));
    let bytes = without_carriage_returns(encode_utf8(markdown));
    assert(bytes == run_of(HASH, 7) + without_carriage_returns(encode_utf8(tail)));
    assert forall|i: int| 0 <= i <= 6 implies bytes[i] == HASH by {
        assert(bytes[i] == run_of(HASH, 7)[i]);
    }
    lemma_long_heading_bytes(bytes);
}

/// Two plain texts with two or more line breaks between them become two
/// paragraphs: the break closes the first and the second text opens the
/// next. No break element stands between them.
pub proof fn lemma_paragraphs_document(first: Seq<char>, breaks: nat, second: Seq<char>)
    requires
        is_plain_text(first),
        is_plain_text(second),
        first.len() > 0 && first[0] != '-',
        second.len() > 0 && second[0] != ' ' && second[0] != '-',
        breaks >= 2,
    ensures
        html_of(first + chars_of('\n', breaks) + second) == Ok::<Seq<char>, RenderError>(
            "<p>"@ + first + "</p>"@ + "<p>"@ + second + "</p>"@,
        ),
{
    let markdown = first + chars_of('\n', breaks) + second;
    let bytes = encode_utf8(first) + run_of(LINE_FEED, breaks) + encode_utf8(second);
    lemma_plain_text_bytes(first);
    lemma_plain_text_bytes(second);
    lemma_encode_concat(first + chars_of('\n', breaks), second);
    lemma_encode_concat(first, chars_of('\n', breaks));
    lemma_run_bytes('\n', LINE_FEED, breaks);
    assert(encode_utf8(markdown) == bytes);
    lemma_without_carriage_returns(run_of(LINE_FEED, breaks));
    lemma_without_carriage_returns_concat(encode_utf8(first), run_of(LINE_FEED, breaks));
    lemma_without_carriage_returns_concat(
        encode_utf8(first) + run_of(LINE_FEED, breaks),
        encode_utf8(second),
    );
    lemma_paragraphs_bytes(encode_utf8(first), breaks, encode_utf8(second));
}

/// Two plain texts with one line break between them become one paragraph,
/// in which a single space stands in place of the line break.
pub proof fn lemma_soft_break_document(first: Seq<char>, second: Seq<char>)
    requires
        is_plain_text(first),
        is_plain_text(second),
        first.len() > 0 && first[0] != '-',
        second.len() > 0 && second[0] != ' ' && second[0] != '-',
    ensures
        html_of(first + seq!['\n'] + second) == Ok::<Seq<char>, RenderError>(
            "<p>"@ + first + " "@ + second + "</p>"@,
        ),
{
    let markdown = first + seq!['\n'] + second;
    let bytes = encode_utf8(first) + seq![LINE_FEED] + encode_utf8(second);
    lemma_plain_text_bytes(first);
    lemma_plain_text_bytes(second);
    lemma_encode_concat(first + seq!['\n'], second);
    lemma_encode_concat(first, seq!['\n']);
    assert(seq!['\n'] =~= chars_of('\n', 1));
    lemma_run_bytes('\n', LINE_FEED, 1);
    assert(run_of(LINE_FEED, 1) =~= seq![LINE_FEED]);
    assert(encode_utf8(markdown) == bytes);
    lemma_without_carriage_returns(seq![LINE_FEED]);
    lemma_without_carriage_returns_concat(encode_utf8(first), seq![LINE_FEED]);
    lemma_without_carriage_returns_concat(
        encode_utf8(first) + seq![LINE_FEED],
        encode_utf8(second),
    );
    lemma_soft_break_bytes(encode_utf8(first), encode_utf8(second));
}

/// A plain text and a second one between two `*` become one paragraph in
/// which the second text is italic; between two `**` the second text is
/// bold. The tags pair in the order of the delimiters.
pub proof fn lemma_emphasis_document(first: Seq<char>, second: Seq<char>, bold: bool)
    requires
        is_plain_text(first),
        is_plain_text(second),
        first.len() > 0 && first[0] != '-',
        second.len() > 0 && second[0] != '-',
    ensures
        html_of(
            first + chars_of(
                '*',
                if bold {
                    2
                } else {
                    1
                },
            ) + second + chars_of(
                '*',
                if bold {
                    2
                } else {
                    1
                },
            ),
        ) == Ok::<Seq<char>, RenderError>(
            "<p>"@ + first + emphasis_start_tag(bold) + second + emphasis_end_tag(bold) + "</p>"@,
        ),
{
    let count: nat = if bold {
        2
    } else {
        1
    };
    let stars = chars_of('*', count);
    let marks = emphasis_marks(bold);
    let markdown = first + stars + second + stars;
    let bytes = encode_utf8(first) + marks + encode_utf8(second) + marks;
    lemma_plain_text_bytes(first);
    lemma_plain_text_bytes(second);
    lemma_run_bytes('*', ASTERISK, count);
    assert(run_of(ASTERISK, count) =~= marks);
    lemma_encode_concat(first + stars + second, stars);
    lemma_encode_concat(first + stars, second);
    lemma_encode_concat(first, stars);
    assert(encode_utf8(markdown) == bytes);
    lemma_without_carriage_returns(marks);
    lemma_without_carriage_returns_concat(encode_utf8(first), marks);
    lemma_without_carriage_returns_concat(encode_utf8(first) + marks, encode_utf8(second));
    lemma_without_carriage_returns_concat(
        encode_utf8(first) + marks + encode_utf8(second),
        marks,
    );
    lemma_emphasis_bytes(encode_utf8(first), encode_utf8(second), bold);
}

/// Two list items on two lines, the second behind `indent` spaces, become a
/// list in which the second item stands one list deeper for every two
/// spaces. Every list that was opened is closed at the end.
pub proof fn lemma_nested_item_document(first: Seq<char>, indent: nat, second: Seq<char>)
    requires
        is_plain_text(first),
        is_plain_text(second),
        first.len() > 0 && first[0] != '-',
        second.len() > 0 && second[0] != '-',
    ensures
        html_of(
            seq!['-', ' '] + first + seq!['\n'] + chars_of(' ', indent) + seq!['-', ' '] + second,
        ) == Ok::<Seq<char>, RenderError>(
            "<ul>"@ + "<li>"@ + first + "</li>"@ + repeated("<ul>"@, indent / 2) + "<li>"@ + second
                + "</li>"@ + repeated("</ul>"@, indent / 2 + 1),
        ),
{
    let marker = seq!['-', ' '];
    let spaces = chars_of(' ', indent);
    let markdown = marker + first + seq!['\n'] + spaces + marker + second;
    let marker_bytes = seq![DASH, SPACE];
    let space_bytes = run_of(SPACE, indent);
    let bytes = marker_bytes + encode_utf8(first) + seq![LINE_FEED] + space_bytes + marker_bytes
        + encode_utf8(second);
    lemma_plain_text_bytes(first);
    lemma_plain_text_bytes(second);
    lemma_encode_ascii(marker);
    assert(encode_utf8(marker) =~= marker_bytes);
    assert(seq!['\n'] =~= chars_of('\n', 1));
    lemma_run_bytes('\n', LINE_FEED, 1);
    assert(run_of(LINE_FEED, 1) =~= seq![LINE_FEED]);
    lemma_run_bytes(' ', SPACE, indent);
    lemma_encode_concat(marker + first + seq!['\n'] + spaces + marker, second);
    lemma_encode_concat(marker + first + seq!['\n'] + spaces, marker);
    lemma_encode_concat(marker + first + seq!['\n'], spaces);
    lemma_encode_concat(marker + first, seq!['\n']);
    lemma_encode_concat(marker, first);
    assert(encode_utf8(markdown) == bytes);
    lemma_without_carriage_returns(marker_bytes);
    lemma_without_carriage_returns(seq![LINE_FEED]);
    lemma_without_carriage_returns(space_bytes);
    lemma_without_carriage_returns_concat(marker_bytes, encode_utf8(first));
    lemma_without_carriage_returns_concat(marker_bytes + encode_utf8(first), seq![LINE_FEED]);
    lemma_without_carriage_returns_concat(
        marker_bytes + encode_utf8(first) + seq![LINE_FEED],
        space_bytes,
    );
    lemma_without_carriage_returns_concat(
        marker_bytes + encode_utf8(first) + seq![LINE_FEED] + space_bytes,
        marker_bytes,
    );
    lemma_without_carriage_returns_concat(
        marker_bytes + encode_utf8(first) + seq![LINE_FEED] + space_bytes + marker_bytes,
        encode_utf8(second),
    );
    lemma_nested_item_bytes(encode_utf8(first), indent, encode_utf8(second));
}

/// Code between two backticks becomes inline code in a paragraph. It is
/// kept character for character, markers and line breaks included.
pub proof fn lemma_code_document(code: Seq<char>)
    requires
        code.len() > 0,
        forall|i: int| 0 <= i < code.len() ==> code[i] != '`' && code[i] != '\r',
    ensures
        html_of(seq!['`'] + code + seq!['`']) == Ok::<Seq<char>, RenderError>(
            "<p>"@ + "<code>"@ + code + "</code>"@ + "</p>"@,
        ),
{
    let markdown = seq!['`'] + code + seq!['`'];
    let code_bytes = encode_utf8(code);
    let bytes = seq![BACKTICK] + code_bytes + seq![BACKTICK];
    assert(seq!['`'] =~= chars_of('`', 1));
    lemma_run_bytes('`', BACKTICK, 1);
    assert(run_of(BACKTICK, 1) =~= seq![BACKTICK]);
    lemma_encode_concat(seq!['`'] + code, seq!['`']);
    lemma_encode_concat(seq!['`'], code);
    assert(encode_utf8(markdown) == bytes);
    lemma_encode_len(code);
    encode_utf8_valid_utf8(code);
    encode_utf8_decode_utf8(code);
    assert forall|i: int| 0 <= i < code_bytes.len() implies code_bytes[i] != BACKTICK
        && code_bytes[i] != CARRIAGE_RETURN by {
        if code_bytes[i] < 0x80 {
            lemma_ascii_byte_is_char(code, i);
        }
    }
    lemma_without_carriage_returns(code_bytes);
    lemma_without_carriage_returns(seq![BACKTICK]);
    lemma_without_carriage_returns_concat(seq![BACKTICK], code_bytes);
    lemma_without_carriage_returns_concat(seq![BACKTICK] + code_bytes, seq![BACKTICK]);
    lemma_code_bytes(code_bytes);
}

/// A fence of three backticks, a language tag, a line break, a body and a
/// closing fence become one preformatted block. The body is kept character
/// for character, line breaks included. A tag becomes the class
/// `language-` and the tag; without a tag there is no class.
pub proof fn lemma_fenced_block_document(tag: Seq<char>, body: Seq<char>)
    requires
        forall|i: int| 0 <= i < tag.len() ==> tag[i] != '\n' && tag[i] != '\r',
        tag.len() > 0 ==> tag[0] != '`',
        forall|i: int| 0 <= i < body.len() ==> body[i] != '`' && body[i] != '\r',
    ensures
        html_of(chars_of('`', 3) + tag + seq!['\n'] + body + chars_of('`', 3)) == Ok::<
            Seq<char>,
            RenderError,
        >(
            code_block_html(
                if tag.len() > 0 {
                    Some(tag)
                } else {
                    None
                },
                body,
            ),
        ),
{
    let markdown = chars_of('`', 3) + tag + seq!['\n'] + body + chars_of('`', 3);
    let tag_bytes = encode_utf8(tag);
    let body_bytes = encode_utf8(body);
    let bytes = run_of(BACKTICK, 3) + tag_bytes + seq![LINE_FEED] + body_bytes + run_of(
        BACKTICK,
        3,
    );
    lemma_encode_concat(chars_of('`', 3) + tag + seq!['\n'] + body, chars_of('`', 3));
    lemma_encode_concat(chars_of('`', 3) + tag + seq!['\n'], body);
    lemma_encode_concat(chars_of('`', 3) + tag, seq!['\n']);
    lemma_encode_concat(chars_of('`', 3), tag);
    lemma_run_bytes('`', BACKTICK, 3);
    assert(seq!['\n'] =~= chars_of('\n', 1));
    lemma_run_bytes('\n', LINE_FEED, 1);
    assert(run_of(LINE_FEED, 1) =~= seq![LINE_FEED]);
    assert(encode_utf8(markdown) == bytes);
    lemma_encode_len(tag);
    encode_utf8_valid_utf8(tag);
    encode_utf8_decode_utf8(tag);
    encode_utf8_valid_utf8(body);
    encode_utf8_decode_utf8(body);
    assert forall|i: int| 0 <= i < tag_bytes.len() implies tag_bytes[i] != LINE_FEED
        && tag_bytes[i] != CARRIAGE_RETURN by {
        if tag_bytes[i] < 0x80 {
            lemma_ascii_byte_is_char(tag, i);
        }
    }
    if tag.len() > 0 && tag_bytes[0] < 0x80 {
        lemma_ascii_byte_is_char(tag, 0);
    }
    assert forall|i: int| 0 <= i < body_bytes.len() implies body_bytes[i] != BACKTICK
        && body_bytes[i] != CARRIAGE_RETURN by {
        if body_bytes[i] < 0x80 {
            lemma_ascii_byte_is_char(body, i);
        }
    }
    assert forall|i: int| 0 <= i < bytes.len() implies bytes[i] != CARRIAGE_RETURN by {
        if i < 3 {
        } else if i < 3 + tag_bytes.len() {
            assert(bytes[i] == tag_bytes[i - 3]);
        } else if i == 3 + tag_bytes.len() {
        } else if i < 4 + tag_bytes.len() + body_bytes.len() {
            assert(bytes[i] == body_bytes[i - 4 - tag_bytes.len()]);
        } else {
        }
    }
    lemma_without_carriage_returns(bytes);
    lemma_fenced_block_bytes(tag_bytes, body_bytes);
}

/// A document without `<` becomes a fragment in whose text every tag of a
/// list, of bold text and of italic text is closed: the text holds as many
/// end tags as start tags of each kind, and no beginning of it holds more
/// end tags than start tags.
pub proof fn lemma_document_closes_its_tags(markdown: Seq<char>, kind: TagKind, length: int)
    requires
        forall|i: int| 0 <= i < markdown.len() ==> markdown[i] != '<',
    ensures
        html_of(markdown) matches Ok(html) ==> {
            &&& tag_count(html, kind, true) == tag_count(html, kind, false)
            &&& 0 <= length <= html.len() ==> tag_count(html.take(length), kind, true)
                <= tag_count(html.take(length), kind, false)
        },
{
    let encoded = encode_utf8(markdown);
    assert forall|i: int| 0 <= i < encoded.len() implies encoded[i] != LESS_THAN by {
        if encoded[i] < 0x80 {
            lemma_ascii_byte_is_char(markdown, i);
        }
    }
    lemma_without_carriage_returns_adds_nothing(encoded, LESS_THAN);
    let start = LexerState::start(without_carriage_returns(encoded));
    lemma_tokens_are_tagless(start);
    lemma_lex_ends_once(start);
    let tokens = tokens_of(markdown);
    if html_of(markdown) is Ok {
        lemma_fragment_closes_its_tags(tokens, kind);
        if 0 <= length <= render_run(tokens).1.len() {
            lemma_fragment_closes_nothing_unopened(tokens, length, kind);
        }
    }
}

} // verus!
