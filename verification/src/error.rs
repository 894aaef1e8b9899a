//! The two error taxonomies of the front end.
//!
//! Lexical errors are recoverable inside the lexer's rule-selection loop
//! (the next rule is tried) and only `RemainingInput` ever escapes `lex`.
//! Parse errors always carry a position, so a caller can print
//! `line:column: <kind>`, or report end of input when no token remained.

use vstd::prelude::*;

use crate::token::{Token, TokenKind, TokenKindView};

verus! {

/// An error raised by a single token rule or by the lexer as a whole.
///
/// The rule-specific variants never escape `lex`: when no rule matches, the
/// lexer folds them into `RemainingInput`, which carries the tokens
/// recognized so far for diagnostics.
#[derive(Debug, PartialEq, Eq)]
pub enum LexError {
    Expected(char),
    ExpectedPhrase(&'static str),
    ExpectedId,
    ExpectedMod,
    ExpectedWhitespace,
    RemainingInput(Vec<Token>),
}

/// Where in the source an error was detected: a 1-based line/column pair,
/// or the end of the input when no character or token remained.
#[derive(Debug, PartialEq, Eq, Clone, Copy)]
pub enum Position {
    EOF,
    Pos { line: usize, col: usize },
}

/// The closed set of parse failures.
#[derive(Debug, PartialEq, Eq)]
pub enum ParseErrorKind {
    Message(String),
    Expected(TokenKind),
    ExpectedId,
    ExpectedMod,
    RemainingTokens,
    ExpectedEof,
}

/// A parse-error kind as the specifications see it.
pub enum ParseErrorKindView {
    Message(Seq<char>),
    Expected(TokenKindView),
    ExpectedId,
    ExpectedMod,
    RemainingTokens,
    ExpectedEof,
}

impl View for ParseErrorKind {
    type V = ParseErrorKindView;

    open spec fn view(&self) -> ParseErrorKindView {
        match self {
            ParseErrorKind::Message(text) => ParseErrorKindView::Message(text@),
            ParseErrorKind::Expected(kind) => ParseErrorKindView::Expected(kind@),
            ParseErrorKind::ExpectedId => ParseErrorKindView::ExpectedId,
            ParseErrorKind::ExpectedMod => ParseErrorKindView::ExpectedMod,
            ParseErrorKind::RemainingTokens => ParseErrorKindView::RemainingTokens,
            ParseErrorKind::ExpectedEof => ParseErrorKindView::ExpectedEof,
        }
    }
}

/// A positioned, typed parse error.
#[derive(Debug, PartialEq, Eq)]
pub struct ParseError {
    pub position: Position,
    pub kind: ParseErrorKind,
}

/// A parse error as the specifications see it.
pub struct ParseErrorView {
    pub position: Position,
    pub kind: ParseErrorKindView,
}

impl View for ParseError {
    type V = ParseErrorView;

    open spec fn view(&self) -> ParseErrorView {
        ParseErrorView { position: self.position, kind: self.kind@ }
    }
}

impl ParseError {
    /// An error at the end of the input, where no token remained.
    pub fn new(kind: ParseErrorKind) -> (e: ParseError)
        ensures
            e@.position == Position::EOF,
            e@.kind == kind@,
    {
        ParseError { position: Position::EOF, kind }
    }

    /// An error at the position recorded on the offending token.
    pub fn new_pos(token: &Token, kind: ParseErrorKind) -> (e: ParseError)
        ensures
            e@.position == (Position::Pos { line: token.line, col: token.col }),
            e@.kind == kind@,
    {
        ParseError { position: Position::Pos { line: token.line, col: token.col }, kind }
    }
}

} // verus!
