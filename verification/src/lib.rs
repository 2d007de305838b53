//! A lexer that parts plain text from ANSI escape sequences and turns each
//! sequence it knows into a typed value.
//!
//! A text is lexed as its UTF-8 bytes. [`grammar`] says which bytes are
//! which sequence, [`tokens`] says which tokens a text has, and the
//! executable functions in [`parsers`] and [`iterator`] are proved to
//! compute exactly that. What follows from the definitions is stated in
//! [`laws`], [`roundtrip`], [`canonical`], [`layout`] and [`local`].

pub mod canonical;
pub mod digits;
pub mod enums;
pub mod grammar;
pub mod graphics;
pub mod iterator;
pub mod laws;
pub mod layout;
pub mod local;
pub mod parsers;
pub mod render;
pub mod roundtrip;
pub mod shape;
pub mod text;
pub mod tokens;
pub mod traits;

pub use enums::{AnsiSequence, Output};
pub use graphics::{Color, GraphicsMode, TextAttribute};
pub use iterator::ParserIterator;
pub use parsers::{parse_escape, ParseError};
pub use traits::AnsiParser;
