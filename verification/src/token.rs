//! Tokens of the architecture-specification language: what the lexer
//! produces and the parser consumes.

use vstd::prelude::*;

verus! {

/// The reserved words of the language: top-level part names and structural
/// words.
#[derive(Clone, Copy, Debug, PartialEq, Eq, Structural)]
pub enum Keyword {
    Architecture,
    Concept,
    Contract,
    Api,
    Conceptspace,
    By,
    Structfor,
    Behaviorfor,
    Extends,
    During,
    Pre,
    Post,
    Inbound,
    Outbound,
    Import,
    Package,
}

/// What a token is: a keyword, an identifier, a string literal, a doc
/// comment, or one punctuation mark.
#[derive(Clone, Debug, PartialEq, Eq)]
pub enum TokenKind {
    Keyword(Keyword),
    Identifier(String),
    StringLiteral(String),
    DocComment(String),
    LBrace,
    RBrace,
    Comma,
    Colon,
    LParen,
    RParen,
}

/// One token with the line and column (both 1-based, in characters) where
/// it starts.
#[derive(Clone, Debug, PartialEq, Eq)]
pub struct Token {
    pub kind: TokenKind,
    pub line: usize,
    pub col: usize,
}

/// The view of a [`TokenKind`]: the same shape with texts as character
/// sequences.
#[verifier::ext_equal]
pub ghost enum TokenView {
    Keyword(Keyword),
    Identifier(Seq<char>),
    StringLiteral(Seq<char>),
    DocComment(Seq<char>),
    LBrace,
    RBrace,
    Comma,
    Colon,
    LParen,
    RParen,
}

impl View for TokenKind {
    type V = TokenView;

    open spec fn view(&self) -> TokenView {
        match self {
            TokenKind::Keyword(k) => TokenView::Keyword(*k),
            TokenKind::Identifier(s) => TokenView::Identifier(s@),
            TokenKind::StringLiteral(s) => TokenView::StringLiteral(s@),
            TokenKind::DocComment(s) => TokenView::DocComment(s@),
            TokenKind::LBrace => TokenView::LBrace,
            TokenKind::RBrace => TokenView::RBrace,
            TokenKind::Comma => TokenView::Comma,
            TokenKind::Colon => TokenView::Colon,
            TokenKind::LParen => TokenView::LParen,
            TokenKind::RParen => TokenView::RParen,
        }
    }
}

impl View for Token {
    type V = TokenView;

    open spec fn view(&self) -> TokenView {
        self.kind@
    }
}

/// The keyword a word spells, if any.
pub open spec fn keyword_of(word: Seq<char>) -> Option<Keyword> {
    if word == "architecture"@ {
        Option::Some(Keyword::Architecture)
    } else if word == "concept"@ {
        Option::Some(Keyword::Concept)
    } else if word == "contract"@ {
        Option::Some(Keyword::Contract)
    } else if word == "api"@ {
        Option::Some(Keyword::Api)
    } else if word == "conceptspace"@ {
        Option::Some(Keyword::Conceptspace)
    } else if word == "by"@ {
        Option::Some(Keyword::By)
    } else if word == "structfor"@ {
        Option::Some(Keyword::Structfor)
    } else if word == "behaviorfor"@ {
        Option::Some(Keyword::Behaviorfor)
    } else if word == "extends"@ {
        Option::Some(Keyword::Extends)
    } else if word == "during"@ {
        Option::Some(Keyword::During)
    } else if word == "pre"@ {
        Option::Some(Keyword::Pre)
    } else if word == "post"@ {
        Option::Some(Keyword::Post)
    } else if word == "inbound"@ {
        Option::Some(Keyword::Inbound)
    } else if word == "outbound"@ {
        Option::Some(Keyword::Outbound)
    } else if word == "import"@ {
        Option::Some(Keyword::Import)
    } else if word == "package"@ {
        Option::Some(Keyword::Package)
    } else {
        Option::None
    }
}

/// Whether two string slices spell the same characters.
pub fn str_eq(a: &str, b: &str) -> (r: bool)
    ensures
        r == (a@ == b@),
{
    let x = String::from_str(a);
    let y = String::from_str(b);
    x == y
}

/// The keyword a word spells, if any, computed.
pub fn keyword_from(word: &str) -> (r: Option<Keyword>)
    ensures
        r == keyword_of(word@),
{
    if str_eq(word, "architecture") {
        Option::Some(Keyword::Architecture)
    } else if str_eq(word, "concept") {
        Option::Some(Keyword::Concept)
    } else if str_eq(word, "contract") {
        Option::Some(Keyword::Contract)
    } else if str_eq(word, "api") {
        Option::Some(Keyword::Api)
    } else if str_eq(word, "conceptspace") {
        Option::Some(Keyword::Conceptspace)
    } else if str_eq(word, "by") {
        Option::Some(Keyword::By)
    } else if str_eq(word, "structfor") {
        Option::Some(Keyword::Structfor)
    } else if str_eq(word, "behaviorfor") {
        Option::Some(Keyword::Behaviorfor)
    } else if str_eq(word, "extends") {
        Option::Some(Keyword::Extends)
    } else if str_eq(word, "during") {
        Option::Some(Keyword::During)
    } else if str_eq(word, "pre") {
        Option::Some(Keyword::Pre)
    } else if str_eq(word, "post") {
        Option::Some(Keyword::Post)
    } else if str_eq(word, "inbound") {
        Option::Some(Keyword::Inbound)
    } else if str_eq(word, "outbound") {
        Option::Some(Keyword::Outbound)
    } else if str_eq(word, "import") {
        Option::Some(Keyword::Import)
    } else if str_eq(word, "package") {
        Option::Some(Keyword::Package)
    } else {
        Option::None
    }
}

} // verus!
