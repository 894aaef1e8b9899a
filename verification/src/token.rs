//! Tokens: the classified, positioned lexical units the lexer produces and
//! the parser consumes.

use vstd::prelude::*;

use crate::scanner::Scanner;

verus! {

/// One of the fixed keyboard-modifier keywords recognized before a `+`.
#[derive(Debug, PartialEq, Eq, Copy, Clone, Structural)]
pub enum Mod {
    Ctrl,
    Shift,
    Alt,
}

/// The closed set of token classifications.
///
/// Equality between token kinds ignores positions and compares the carried
/// text; the parser matches expected literals and newlines with it.
#[derive(Debug, PartialEq, Eq)]
pub enum TokenKind {
    /// One or more ASCII letters.
    Id(String),
    /// One of the modifier keywords `ctrl`, `shift`, `alt`.
    Mod(Mod),
    /// One of the fixed keyword strings, such as `map` or `+`.
    Phrase(&'static str),
    /// A run of spaces and tabs, collapsed into one token.
    Whitespace,
    /// A single `\n`.
    Newline,
}

/// A token kind as the specifications see it: carried text abstracted to
/// character sequences.
pub enum TokenKindView {
    Id(Seq<char>),
    Mod(Mod),
    Phrase(Seq<char>),
    Whitespace,
    Newline,
}

impl View for TokenKind {
    type V = TokenKindView;

    open spec fn view(&self) -> TokenKindView {
        match self {
            TokenKind::Id(text) => TokenKindView::Id(text@),
            TokenKind::Mod(m) => TokenKindView::Mod(*m),
            TokenKind::Phrase(phrase) => TokenKindView::Phrase(phrase@),
            TokenKind::Whitespace => TokenKindView::Whitespace,
            TokenKind::Newline => TokenKindView::Newline,
        }
    }
}

/// A classified, positioned token. Immutable once produced.
///
/// `line` and `col` are stamped from the scanner at creation time, so right
/// after a rule runs they hold the position *after* the token's characters;
/// the lexer's corrective pass then shifts them back by one token slot.
#[derive(Debug, PartialEq, Eq)]
pub struct Token {
    pub line: usize,
    pub col: usize,
    pub kind: TokenKind,
}

impl Token {
    /// Stamps a new token with the scanner's current position.
    pub fn new(scanner: &Scanner, kind: TokenKind) -> (token: Token)
        ensures
            token.line as int == scanner@.line,
            token.col as int == scanner@.col,
            token.kind == kind,
    {
        Token { line: scanner.curr_line, col: scanner.curr_col, kind }
    }
}

/// Character-by-character string equality, so that kind comparisons carry
/// a full specification.
fn str_eq(a: &str, b: &str) -> (r: bool)
    ensures
        r == (a@ == b@),
{
    let n = a.unicode_len();
    let m = b.unicode_len();
    if n != m {
        return false;
    }
    let mut k: usize = 0;
    while k < n
        invariant
            k <= n,
            n == a@.len(),
            n == b@.len(),
            forall|j: int| 0 <= j < k ==> a@[j] == b@[j],
        decreases n - k,
    {
        if a.get_char(k) != b.get_char(k) {
            return false;
        }
        k += 1;
    }
    proof {
        assert(a@ =~= b@);
    }
    true
}

/// Whether two token kinds are equal: same classification and, for
/// identifiers and keyword literals, the same text. Positions play no part.
pub fn kind_eq(a: &TokenKind, b: &TokenKind) -> (r: bool)
    ensures
        r == (a@ == b@),
{
    match (a, b) {
        (TokenKind::Id(x), TokenKind::Id(y)) => str_eq(x.as_str(), y.as_str()),
        (TokenKind::Mod(m1), TokenKind::Mod(m2)) => *m1 == *m2,
        (TokenKind::Phrase(p1), TokenKind::Phrase(p2)) => str_eq(p1, p2),
        (TokenKind::Whitespace, TokenKind::Whitespace) => true,
        (TokenKind::Newline, TokenKind::Newline) => true,
        _ => false,
    }
}

/// Copies a token kind; the copy carries the same text.
pub fn clone_kind(kind: &TokenKind) -> (r: TokenKind)
    ensures
        r == *kind,
{
    match kind {
        TokenKind::Id(text) => TokenKind::Id(text.clone()),
        TokenKind::Mod(m) => TokenKind::Mod(*m),
        TokenKind::Phrase(phrase) => TokenKind::Phrase(phrase),
        TokenKind::Whitespace => TokenKind::Whitespace,
        TokenKind::Newline => TokenKind::Newline,
    }
}

/// Copies a token, position and kind alike.
pub fn clone_token(token: &Token) -> (r: Token)
    ensures
        r == *token,
{
    Token { line: token.line, col: token.col, kind: clone_kind(&token.kind) }
}

} // verus!
