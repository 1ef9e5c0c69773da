//! The structural alphabet of a document: the tokens that the lexer produces
//! and the renderer consumes.

use vstd::prelude::*;

verus! {

/// One classified unit of a document.
#[derive(Debug, PartialEq)]
pub enum Token {
    /// A maximal run of characters that are not structural markers.
    Text(String),
    Heading1,
    Heading2,
    Heading3,
    Heading4,
    Heading5,
    Heading6,
    /// A list-item marker with its nesting depth.
    UnorderedBullet(usize),
    Bold,
    Italic,
    /// The literal contents of an inline code span.
    Code(String),
    /// A fenced block: its language tag, if any, and its literal body.
    CodeBlock(Option<String>, String),
    /// A single line break.
    Newline,
    /// Two or more consecutive line breaks.
    DoubleNewline,
    /// The end of the document; always the last token of a stream.
    EndOfFile,
    /// A structural marker that cannot be classified.
    Illegal,
}

/// The mathematical value of a [`Token`]: strings are character sequences,
/// depths are natural numbers.
pub enum SpecToken {
    Text(Seq<char>),
    Heading1,
    Heading2,
    Heading3,
    Heading4,
    Heading5,
    Heading6,
    UnorderedBullet(nat),
    Bold,
    Italic,
    Code(Seq<char>),
    CodeBlock(Option<Seq<char>>, Seq<char>),
    Newline,
    DoubleNewline,
    EndOfFile,
    Illegal,
}

impl View for Token {
    type V = SpecToken;

    open spec fn view(&self) -> SpecToken {
        match self {
            Token::Text(text) => SpecToken::Text(text@),
            Token::Heading1 => SpecToken::Heading1,
            Token::Heading2 => SpecToken::Heading2,
            Token::Heading3 => SpecToken::Heading3,
            Token::Heading4 => SpecToken::Heading4,
            Token::Heading5 => SpecToken::Heading5,
            Token::Heading6 => SpecToken::Heading6,
            Token::UnorderedBullet(depth) => SpecToken::UnorderedBullet(*depth as nat),
            Token::Bold => SpecToken::Bold,
            Token::Italic => SpecToken::Italic,
            Token::Code(code) => SpecToken::Code(code@),
            Token::CodeBlock(language, body) => SpecToken::CodeBlock(
                match language {
                    Some(tag) => Some(tag@),
                    None => None,
                },
                body@,
            ),
            Token::Newline => SpecToken::Newline,
            Token::DoubleNewline => SpecToken::DoubleNewline,
            Token::EndOfFile => SpecToken::EndOfFile,
            Token::Illegal => SpecToken::Illegal,
        }
    }
}

/// The heading token of `level`. There are six levels: any other number
/// gives the illegal token.
pub open spec fn heading_token(level: int) -> SpecToken {
    if level == 1 {
        SpecToken::Heading1
    } else if level == 2 {
        SpecToken::Heading2
    } else if level == 3 {
        SpecToken::Heading3
    } else if level == 4 {
        SpecToken::Heading4
    } else if level == 5 {
        SpecToken::Heading5
    } else if level == 6 {
        SpecToken::Heading6
    } else {
        SpecToken::Illegal
    }
}

/// The mathematical values of a sequence of tokens, in order.
pub open spec fn token_views(tokens: Seq<Token>) -> Seq<SpecToken> {
    Seq::new(tokens.len(), |i: int| tokens[i]@)
}

impl Token {
    /// Whether this token ends the stream.
    pub fn is_end(&self) -> (end: bool)
        ensures
            end == (self@ is EndOfFile),
    {
        matches!(self, Token::EndOfFile)
    }
}

} // verus!
