//! The shared token vocabulary: token kinds, source spans, tokens, and
//! lexical errors, together with their mathematical models.

use vstd::prelude::*;

verus! {

/// The kind of a token, together with its payload.  `Ident` and `Quote`
/// carry the matched text (for `Quote`, without the surrounding quote
/// characters); `Integer` carries the parsed value, not the raw digits.
#[derive(Debug, Clone, PartialEq, Eq)]
pub enum Item {
    Ident(String),
    Integer(i32),
    Quote(String),
    Plus,
    Minus,
    Multiply,
    Divide,
    Equal,
    LParen,
    RParen,
}

/// The location of a token in the source: `Span(offset, length)`, both in
/// characters (not bytes) from the start of the source.
#[derive(Debug, Clone, Copy, PartialEq, Eq)]
pub struct Span(pub usize, pub usize);

/// One produced token: a kind and where it stands in the source.
#[derive(Debug, PartialEq, Eq)]
pub struct Token(pub Item, pub Span);

/// A fatal lexical error.  Scanning is all-or-nothing: on any of these the
/// whole scan fails and no token list is returned.  Each variant carries
/// the character offset at which the error was detected; `UnknownToken`
/// also names the offending character.
#[derive(Debug, Clone, Copy, PartialEq, Eq)]
pub enum LexError {
    /// A quoted string reached a newline or the end of input before its
    /// closing quote.  The offset is that of the opening quote.
    UnterminatedString(usize),
    /// A character that belongs to no token class.
    UnknownToken(char, usize),
    /// A digit run whose value does not fit in a 32-bit signed integer.
    /// The offset is that of the first digit.
    Overflow(usize),
}

/// The mathematical model of an [`Item`]: text as a sequence of characters,
/// the integer value unbounded.
pub enum ItemModel {
    Ident(Seq<char>),
    Integer(int),
    Quote(Seq<char>),
    Plus,
    Minus,
    Multiply,
    Divide,
    Equal,
    LParen,
    RParen,
}

/// The mathematical model of a [`Token`]: its kind and its span, with the
/// span opened up into an offset and a length.
pub struct TokenModel {
    pub item: ItemModel,
    pub offset: int,
    pub length: int,
}

/// The mathematical model of a [`LexError`], with unbounded offsets.
pub enum ErrorModel {
    UnterminatedString(int),
    UnknownToken(char, int),
    Overflow(int),
}

impl View for Item {
    type V = ItemModel;

    open spec fn view(&self) -> ItemModel {
        match self {
            Item::Ident(text) => ItemModel::Ident(text@),
            Item::Integer(value) => ItemModel::Integer(*value as int),
            Item::Quote(text) => ItemModel::Quote(text@),
            Item::Plus => ItemModel::Plus,
            Item::Minus => ItemModel::Minus,
            Item::Multiply => ItemModel::Multiply,
            Item::Divide => ItemModel::Divide,
            Item::Equal => ItemModel::Equal,
            Item::LParen => ItemModel::LParen,
            Item::RParen => ItemModel::RParen,
        }
    }
}

impl View for Token {
    type V = TokenModel;

    open spec fn view(&self) -> TokenModel {
        TokenModel { item: self.0@, offset: self.1.0 as int, length: self.1.1 as int }
    }
}

impl View for LexError {
    type V = ErrorModel;

    open spec fn view(&self) -> ErrorModel {
        match self {
            LexError::UnterminatedString(offset) => ErrorModel::UnterminatedString(*offset as int),
            LexError::UnknownToken(c, offset) => ErrorModel::UnknownToken(*c, *offset as int),
            LexError::Overflow(offset) => ErrorModel::Overflow(*offset as int),
        }
    }
}

} // verus!
