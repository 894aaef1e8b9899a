//! Front end for a small keyboard-shortcut configuration language.
//!
//! Each line of the language has the shape `map [<modifier>+]<key> <command>`,
//! for example `map ctrl+k up`. The crate turns raw text into a sequence of
//! positioned tokens (scanner + lexer) and parses that sequence into a
//! `Program`, one binding statement per line, reporting positioned errors on
//! malformed input.

pub mod ast;
pub mod error;
pub mod lexer;
pub mod parser;
pub mod pos;
pub mod scanner;
pub mod token;

pub use ast::{Key, MapBinding, Program, Statement};
pub use error::{LexError, ParseError, ParseErrorKind, Position};
pub use lexer::lex;
pub use parser::parse;
pub use parser::Parser;
pub use scanner::Scanner;
pub use token::{Mod, Token, TokenKind};
