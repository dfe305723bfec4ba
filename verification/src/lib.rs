//! A tokenizer for a small expression language (identifiers, integer
//! literals, quoted strings, the operators `+ - * / = ( )` and `//` line
//! comments), implemented by three interchangeable scanning strategies:
//! a hand-written character loop, an ordered table of per-kind patterns,
//! and one combined pattern.  All three are proved to return exactly the
//! token sequence described by the shared specification [`grammar::lexed`].

pub mod grammar;
pub mod hand_written;
pub mod laws;
pub mod multi_regex;
pub mod single_regex;
mod token;

pub use token::ErrorModel;
pub use token::Item;
pub use token::ItemModel;
pub use token::LexError;
pub use token::Span;
pub use token::Token;
pub use token::TokenModel;
