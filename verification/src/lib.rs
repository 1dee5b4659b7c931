//! A lookahead-buffering adapter between a raw token stream and a parser.
//!
//! The tokenizer wraps the positioned tokens an external scanner produced,
//! keeps a two-slot buffer (`current`, `next`), transparently skips tokens of
//! caller-designated ignorable classes on both slots, and reports positioned,
//! descriptive errors when an expected token class is absent. Matching is
//! payload-blind: every comparison goes through the caller's [`TypeEq`]
//! class-equality predicate, never through structural equality.

pub mod error;
pub mod lookahead;
pub mod messages;
pub mod token;

pub use error::Error;
pub use lookahead::Tokenizer;
pub use token::ClassToken;
pub use token::PositionedToken;
pub use token::TokenCopy;
pub use token::TokenText;
pub use token::TypeEq;
