//! The parser: a token-level cursor plus a recursive-descent grammar over
//! the lexer's (whitespace-free) token sequence.
//!
//! Grammar:
//! ```text
//! Program    := Statement (Newline Statement)*
//! Statement  := MapBinding
//! MapBinding := Literal("map") Key Identifier
//! Key        := (Modifier Literal("+"))? Identifier
//! ```
//!
//! Parsing is non-recovering: the first error anywhere aborts the whole
//! parse and is returned to the caller, positioned at the offending token
//! or at the end of the input.
//!
//! The module's specification walks the same grammar over the token
//! sequence: each `spec_parse_*` function gives the parsed value and the
//! cursor after it, or the positioned error.

use vstd::prelude::*;

use crate::ast::{program_view, Key, KeyView, MapBinding, MapBindingView, Program, Statement,
    StatementView};
use crate::error::{ParseError, ParseErrorKind, ParseErrorKindView, ParseErrorView, Position};
use crate::lexer::{word_map, word_plus};
use crate::token::{kind_eq, clone_token, Mod, Token, TokenKind, TokenKindView};

verus! {

/// The position recorded on token `i`, or end of input when there is no
/// such token.
pub open spec fn tok_pos(toks: Seq<Token>, i: int) -> Position {
    if 0 <= i < toks.len() {
        Position::Pos { line: toks[i].line, col: toks[i].col }
    } else {
        Position::EOF
    }
}

/// `Key := (Modifier Literal("+"))? Identifier`, starting at token `i`.
///
/// Once a modifier is seen, the `+` is mandatory: its absence is a hard
/// parse error, not a backtrack. Without a modifier, a bare identifier is
/// the key.
pub open spec fn spec_parse_key(toks: Seq<Token>, i: int) -> Result<(KeyView, int), ParseErrorView> {
    if i < toks.len() && toks[i].kind@ is Mod {
        let m = toks[i].kind@->Mod_0;
        if i + 1 < toks.len() && toks[i + 1].kind@ == TokenKindView::Phrase(word_plus()) {
            if i + 2 < toks.len() && toks[i + 2].kind@ is Id {
                Ok((KeyView { modifier: Some(m), key: toks[i + 2].kind@->Id_0 }, i + 3))
            } else {
                Err(
                    ParseErrorView {
                        position: tok_pos(toks, i + 2),
                        kind: ParseErrorKindView::ExpectedId,
                    },
                )
            }
        } else {
            Err(
                ParseErrorView {
                    position: tok_pos(toks, i + 1),
                    kind: ParseErrorKindView::Expected(TokenKindView::Phrase(word_plus())),
                },
            )
        }
    } else if i < toks.len() && toks[i].kind@ is Id {
        Ok((KeyView { modifier: None, key: toks[i].kind@->Id_0 }, i + 1))
    } else {
        Err(ParseErrorView { position: tok_pos(toks, i), kind: ParseErrorKindView::ExpectedId })
    }
}

/// `MapBinding := Literal("map") Key Identifier`, starting at token `i`.
pub open spec fn spec_parse_map(toks: Seq<Token>, i: int) -> Result<
    (MapBindingView, int),
    ParseErrorView,
> {
    if i < toks.len() && toks[i].kind@ == TokenKindView::Phrase(word_map()) {
        match spec_parse_key(toks, i + 1) {
            Err(e) => Err(e),
            Ok((key, j)) => {
                if j < toks.len() && toks[j].kind@ is Id {
                    Ok((MapBindingView { key, cmd_name: toks[j].kind@->Id_0 }, j + 1))
                } else {
                    Err(
                        ParseErrorView {
                            position: tok_pos(toks, j),
                            kind: ParseErrorKindView::ExpectedId,
                        },
                    )
                }
            }
        }
    } else {
        Err(
            ParseErrorView {
                position: tok_pos(toks, i),
                kind: ParseErrorKindView::Expected(TokenKindView::Phrase(word_map())),
            },
        )
    }
}

/// `Statement := MapBinding`, wrapped in the statement variant set.
pub open spec fn spec_parse_statement(toks: Seq<Token>, i: int) -> Result<
    (StatementView, int),
    ParseErrorView,
> {
    match spec_parse_map(toks, i) {
        Err(e) => Err(e),
        Ok((binding, j)) => Ok((StatementView::Binding(binding), j)),
    }
}

/// A successfully parsed grammar fragment consumes at least one token and
/// never runs past the end.
pub proof fn lemma_spec_parse_statement_bounds(toks: Seq<Token>, i: int)
    requires
        0 <= i,
    ensures
        spec_parse_statement(toks, i) matches Ok(p) ==> i < p.1 <= toks.len(),
{
}

/// `Program := Statement (Newline Statement)*`, starting at token `i`:
/// one statement, then, as long as a newline follows, another statement
/// after it. A non-newline token after a statement is a positioned error;
/// exhausting the tokens completes the program.
pub open spec fn spec_parse_program(toks: Seq<Token>, i: int) -> Result<
    (Seq<StatementView>, int),
    ParseErrorView,
>
    decreases toks.len() - i,
    when 0 <= i <= toks.len()
    via spec_parse_program_decreases
{
    match spec_parse_statement(toks, i) {
        Err(e) => Err(e),
        Ok((statement, j)) => {
            if j >= toks.len() {
                Ok((seq![statement], j))
            } else if toks[j].kind@ is Newline {
                match spec_parse_program(toks, j + 1) {
                    Err(e) => Err(e),
                    Ok((rest, k)) => Ok((seq![statement] + rest, k)),
                }
            } else {
                Err(
                    ParseErrorView {
                        position: tok_pos(toks, j),
                        kind: ParseErrorKindView::Expected(TokenKindView::Newline),
                    },
                )
            }
        }
    }
}

#[via_fn]
proof fn spec_parse_program_decreases(toks: Seq<Token>, i: int) {
    lemma_spec_parse_statement_bounds(toks, i);
}

/// A successfully parsed program always consumes the whole token sequence.
pub proof fn lemma_spec_parse_program_ends(toks: Seq<Token>, i: int)
    requires
        0 <= i <= toks.len(),
    ensures
        spec_parse_program(toks, i) matches Ok(p) ==> p.1 == toks.len(),
    decreases toks.len() - i,
{
    lemma_spec_parse_statement_bounds(toks, i);
    match spec_parse_statement(toks, i) {
        Ok(p) => {
            let j = p.1;
            if j < toks.len() && toks[j].kind@ is Newline {
                lemma_spec_parse_program_ends(toks, j + 1);
            }
        }
        Err(_) => {}
    }
}

/// Parsing never reads a token's recorded position except to report an
/// error: two token sequences with the same kinds parse to the same
/// statements and the same end cursor, or fail with the same error kind
/// (only the reported position can differ). Together with
/// `lexer::lemma_whitespace_elided` this is the whitespace-elision law:
/// inserting or removing runs of spaces/tabs between tokens changes only
/// recorded token positions, never the resulting program.
pub proof fn lemma_parse_kinds_only(toks1: Seq<Token>, toks2: Seq<Token>, i: int)
    requires
        0 <= i <= toks1.len(),
        toks1.len() == toks2.len(),
        forall|j: int| 0 <= j < toks1.len() ==> #[trigger] toks1[j].kind@ == toks2[j].kind@,
    ensures
        match (spec_parse_program(toks1, i), spec_parse_program(toks2, i)) {
            (Ok(p1), Ok(p2)) => p1 == p2,
            (Err(e1), Err(e2)) => e1.kind == e2.kind,
            _ => false,
        },
    decreases toks1.len() - i,
{
    lemma_spec_parse_statement_bounds(toks1, i);
    lemma_spec_parse_statement_bounds(toks2, i);
    match spec_parse_statement(toks1, i) {
        Ok(p1) => {
            let j = p1.1;
            if j < toks1.len() && toks1[j].kind@ is Newline {
                lemma_parse_kinds_only(toks1, toks2, j + 1);
            }
        }
        Err(_) => {}
    }
}

/// The parser as the specifications see it: the token sequence and the
/// cursor into it.
pub struct ParserView {
    pub cursor: int,
    pub tokens: Seq<Token>,
}

pub struct Parser {
    pub cursor: usize,
    pub tokens: Vec<Token>,
}

impl View for Parser {
    type V = ParserView;

    open spec fn view(&self) -> ParserView {
        ParserView { cursor: self.cursor as int, tokens: self.tokens@ }
    }
}

impl Parser {
    /// The cursor never runs past the end of the token sequence.
    pub open spec fn wf(&self) -> bool {
        0 <= self@.cursor <= self@.tokens.len()
    }

    pub fn new(tokens: Vec<Token>) -> (parser: Parser)
        ensures
            parser.wf(),
            parser@.cursor == 0,
            parser@.tokens == tokens@,
    {
        Self { cursor: 0, tokens }
    }

    /// Returns the current cursor. Useful for reporting errors.
    pub fn cursor(&self) -> (r: usize)
        ensures
            r as int == self@.cursor,
    {
        self.cursor
    }

    /// Returns the next token without advancing the cursor.
    /// AKA "lookahead"
    pub fn peek(&self) -> (r: Option<&Token>)
        requires
            self.wf(),
        ensures
            match r {
                Some(token) => self@.cursor < self@.tokens.len() && *token
                    == self@.tokens[self@.cursor],
                None => self@.cursor >= self@.tokens.len(),
            },
    {
        if self.cursor < self.tokens.len() {
            Some(&self.tokens[self.cursor])
        } else {
            None
        }
    }

    /// Returns true if further progress is not possible.
    pub fn is_done(&self) -> (r: bool)
        ensures
            r == (self@.cursor >= self@.tokens.len()),
    {
        self.cursor >= self.tokens.len()
    }

    /// Returns the next token (if available) and advances the cursor.
    pub fn pop(&mut self) -> (r: Option<Token>)
        requires
            old(self).wf(),
        ensures
            final(self).wf(),
            final(self)@.tokens == old(self)@.tokens,
            if old(self)@.cursor < old(self)@.tokens.len() {
                &&& r == Some(old(self)@.tokens[old(self)@.cursor])
                &&& final(self)@.cursor == old(self)@.cursor + 1
            } else {
                &&& r is None
                &&& *final(self) == *old(self)
            },
    {
        if self.cursor < self.tokens.len() {
            let token = clone_token(&self.tokens[self.cursor]);
            self.cursor += 1;
            Some(token)
        } else {
            None
        }
    }

    /// Returns the text of the next token and advances the cursor iff that
    /// token is an identifier; otherwise fails with `ExpectedId` positioned
    /// at the offending token or at the end of the input.
    pub fn take_id(&mut self) -> (r: Result<String, ParseError>)
        requires
            old(self).wf(),
        ensures
            final(self).wf(),
            final(self)@.tokens == old(self)@.tokens,
            ({
                let toks = old(self)@.tokens;
                let i = old(self)@.cursor;
                if i < toks.len() && toks[i].kind@ is Id {
                    &&& r matches Ok(name) && name@ == toks[i].kind@->Id_0
                    &&& final(self)@.cursor == i + 1
                } else {
                    &&& r matches Err(e) && e@ == (ParseErrorView {
                        position: tok_pos(toks, i),
                        kind: ParseErrorKindView::ExpectedId,
                    })
                    &&& *final(self) == *old(self)
                }
            }),
    {
        match self.peek() {
            Some(token) => match &token.kind {
                TokenKind::Id(name) => {
                    let copy = name.clone();
                    self.pop();
                    Ok(copy)
                }
                _ => Err(ParseError::new_pos(token, ParseErrorKind::ExpectedId)),
            },
            None => Err(ParseError::new(ParseErrorKind::ExpectedId)),
        }
    }

    /// Returns the modifier of the next token and advances the cursor iff
    /// that token is a modifier; otherwise fails with `ExpectedMod`
    /// positioned at the offending token or at the end of the input.
    pub fn take_mod(&mut self) -> (r: Result<Mod, ParseError>)
        requires
            old(self).wf(),
        ensures
            final(self).wf(),
            final(self)@.tokens == old(self)@.tokens,
            ({
                let toks = old(self)@.tokens;
                let i = old(self)@.cursor;
                if i < toks.len() && toks[i].kind@ is Mod {
                    &&& r == Ok::<Mod, ParseError>(toks[i].kind@->Mod_0)
                    &&& final(self)@.cursor == i + 1
                } else {
                    &&& r matches Err(e) && e@ == (ParseErrorView {
                        position: tok_pos(toks, i),
                        kind: ParseErrorKindView::ExpectedMod,
                    })
                    &&& *final(self) == *old(self)
                }
            }),
    {
        match self.peek() {
            Some(token) => match &token.kind {
                TokenKind::Mod(mod_enum) => {
                    let copy = *mod_enum;
                    self.pop();
                    Ok(copy)
                }
                _ => Err(ParseError::new_pos(token, ParseErrorKind::ExpectedMod)),
            },
            None => Err(ParseError::new(ParseErrorKind::ExpectedMod)),
        }
    }

    /// Succeeds and advances iff the next token's kind equals `target`,
    /// comparing kinds only (positions play no part); otherwise fails with
    /// `Expected(target)` positioned at the offending token or at the end
    /// of the input, leaving the cursor unchanged.
    pub fn expect(&mut self, target: TokenKind) -> (r: Result<(), ParseError>)
        requires
            old(self).wf(),
        ensures
            final(self).wf(),
            final(self)@.tokens == old(self)@.tokens,
            ({
                let toks = old(self)@.tokens;
                let i = old(self)@.cursor;
                if i < toks.len() && toks[i].kind@ == target@ {
                    &&& r is Ok
                    &&& final(self)@.cursor == i + 1
                } else {
                    &&& r matches Err(e) && e@ == (ParseErrorView {
                        position: tok_pos(toks, i),
                        kind: ParseErrorKindView::Expected(target@),
                    })
                    &&& *final(self) == *old(self)
                }
            }),
    {
        if self.cursor < self.tokens.len() {
            let token = &self.tokens[self.cursor];
            if kind_eq(&target, &token.kind) {
                self.pop();
                Ok(())
            } else {
                Err(ParseError::new_pos(token, ParseErrorKind::Expected(target)))
            }
        } else {
            Err(ParseError::new(ParseErrorKind::Expected(target)))
        }
    }
}

/// Prepends already-parsed statements to the result of parsing the rest of
/// a program.
pub open spec fn with_prefix(
    prefix: Seq<StatementView>,
    r: Result<(Seq<StatementView>, int), ParseErrorView>,
) -> Result<(Seq<StatementView>, int), ParseErrorView> {
    match r {
        Ok(p) => Ok((prefix + p.0, p.1)),
        Err(e) => Err(e),
    }
}

/// Parses `Key := (Modifier Literal("+"))? Identifier`.
///
/// A modifier commits to the `+`: once one is seen, a missing `+` is a
/// hard parse error. Without a modifier nothing is consumed before the
/// bare key identifier is read.
pub fn parse_key(parser: &mut Parser) -> (r: Result<Key, ParseError>)
    requires
        old(parser).wf(),
    ensures
        final(parser).wf(),
        final(parser)@.tokens == old(parser)@.tokens,
        ({
            let toks = old(parser)@.tokens;
            let i = old(parser)@.cursor;
            match r {
                Ok(key) => spec_parse_key(toks, i) == Ok::<(KeyView, int), ParseErrorView>(
                    (key@, final(parser)@.cursor),
                ),
                Err(e) => spec_parse_key(toks, i) == Err::<(KeyView, int), ParseErrorView>(e@),
            }
        }),
{
    proof {
        reveal_strlit("+");
        assert("+"@ =~= word_plus());
    }
    match parser.take_mod() {
        Ok(mod_enum) => match parser.expect(TokenKind::Phrase("+")) {
            Err(e) => Err(e),
            Ok(_) => match parser.take_id() {
                Err(e) => Err(e),
                Ok(key_id) => Ok(Key { modifier: Some(mod_enum), key: key_id }),
            },
        },
        Err(_) => match parser.take_id() {
            Err(e) => Err(e),
            Ok(key_id) => Ok(Key { modifier: None, key: key_id }),
        },
    }
}

/// Parses `MapBinding := Literal("map") Key Identifier`.
pub fn parse_map(parser: &mut Parser) -> (r: Result<MapBinding, ParseError>)
    requires
        old(parser).wf(),
    ensures
        final(parser).wf(),
        final(parser)@.tokens == old(parser)@.tokens,
        ({
            let toks = old(parser)@.tokens;
            let i = old(parser)@.cursor;
            match r {
                Ok(binding) => spec_parse_map(toks, i) == Ok::<
                    (MapBindingView, int),
                    ParseErrorView,
                >((binding@, final(parser)@.cursor)),
                Err(e) => spec_parse_map(toks, i) == Err::<(MapBindingView, int), ParseErrorView>(
                    e@,
                ),
            }
        }),
{
    proof {
        reveal_strlit("map");
        assert("map"@ =~= word_map());
    }
    match parser.expect(TokenKind::Phrase("map")) {
        Err(e) => Err(e),
        Ok(_) => match parse_key(parser) {
            Err(e) => Err(e),
            Ok(key) => match parser.take_id() {
                Err(e) => Err(e),
                Ok(cmd_name) => Ok(MapBinding { key, cmd_name }),
            },
        },
    }
}

/// Parses `Statement := MapBinding`, wrapping the binding in the statement
/// variant set.
pub fn parse_statement(parser: &mut Parser) -> (r: Result<Statement, ParseError>)
    requires
        old(parser).wf(),
    ensures
        final(parser).wf(),
        final(parser)@.tokens == old(parser)@.tokens,
        ({
            let toks = old(parser)@.tokens;
            let i = old(parser)@.cursor;
            match r {
                Ok(statement) => spec_parse_statement(toks, i) == Ok::<
                    (StatementView, int),
                    ParseErrorView,
                >((statement@, final(parser)@.cursor)),
                Err(e) => spec_parse_statement(toks, i) == Err::<
                    (StatementView, int),
                    ParseErrorView,
                >(e@),
            }
        }),
{
    match parse_map(parser) {
        Err(e) => Err(e),
        Ok(binding) => Ok(Statement::Binding(binding)),
    }
}

/// Parses `Program := Statement (Newline Statement)*`: one statement per
/// source line, in source order, until the tokens are exhausted.
pub fn parse_program(parser: &mut Parser) -> (r: Result<Program, ParseError>)
    requires
        old(parser).wf(),
    ensures
        final(parser).wf(),
        final(parser)@.tokens == old(parser)@.tokens,
        ({
            let toks = old(parser)@.tokens;
            let i = old(parser)@.cursor;
            match r {
                Ok(program) => spec_parse_program(toks, i) == Ok::<
                    (Seq<StatementView>, int),
                    ParseErrorView,
                >((program_view(program@), final(parser)@.cursor)),
                Err(e) => spec_parse_program(toks, i) == Err::<
                    (Seq<StatementView>, int),
                    ParseErrorView,
                >(e@),
            }
        }),
{
    let ghost toks = old(parser)@.tokens;
    let ghost i0 = old(parser)@.cursor;
    let mut program: Vec<Statement> = Vec::new();
    proof {
        assert(program_view(program@) =~= Seq::<StatementView>::empty());
        assert(spec_parse_program(toks, i0) == with_prefix(
            program_view(program@),
            spec_parse_program(toks, i0),
        )) by {
            match spec_parse_program(toks, i0) {
                Ok(p) => {
                    assert(program_view(program@) + p.0 =~= p.0);
                }
                Err(_) => {}
            }
        }
    }
    loop
        invariant
            parser.wf(),
            parser@.tokens == toks,
            toks == old(parser)@.tokens,
            i0 == old(parser)@.cursor,
            0 <= i0 <= parser@.cursor <= toks.len(),
            spec_parse_program(toks, i0) == with_prefix(
                program_view(program@),
                spec_parse_program(toks, parser@.cursor),
            ),
        decreases toks.len() - parser@.cursor,
    {
        let ghost cur = parser@.cursor;
        let ghost prefix = program_view(program@);
        match parse_statement(parser) {
            Err(e) => {
                return Err(e);
            }
            Ok(statement) => {
                let ghost sv = statement@;
                let ghost j = parser@.cursor;
                proof {
                    lemma_spec_parse_statement_bounds(toks, cur);
                }
                program.push(statement);
                proof {
                    assert(program_view(program@) =~= prefix.push(sv));
                    assert(prefix.push(sv) =~= prefix + seq![sv]);
                }
                if parser.is_done() {
                    proof {
                        assert(spec_parse_program(toks, cur) == Ok::<
                            (Seq<StatementView>, int),
                            ParseErrorView,
                        >((seq![sv], j)));
                        assert(prefix + seq![sv] == program_view(program@));
                    }
                    return Ok(program);
                }
                match parser.expect(TokenKind::Newline) {
                    Err(e) => {
                        return Err(e);
                    }
                    Ok(_) => {
                        proof {
                            let rest = spec_parse_program(toks, j + 1);
                            assert(spec_parse_program(toks, cur) == with_prefix(seq![sv], rest));
                            assert(with_prefix(prefix, with_prefix(seq![sv], rest)) == with_prefix(
                                program_view(program@),
                                rest,
                            )) by {
                                match rest {
                                    Ok(p) => {
                                        assert(prefix + (seq![sv] + p.0) =~= (prefix + seq![sv])
                                            + p.0);
                                    }
                                    Err(_) => {}
                                }
                            }
                        }
                    }
                }
            }
        }
    }
}

/// The parser's top-level entry point: parses a whole program and demands
/// that every token has been consumed.
pub fn parse(parser: &mut Parser) -> (r: Result<Program, ParseError>)
    requires
        old(parser).wf(),
    ensures
        final(parser).wf(),
        final(parser)@.tokens == old(parser)@.tokens,
        ({
            let toks = old(parser)@.tokens;
            let i = old(parser)@.cursor;
            match r {
                Ok(program) => {
                    &&& spec_parse_program(toks, i) == Ok::<
                        (Seq<StatementView>, int),
                        ParseErrorView,
                    >((program_view(program@), toks.len() as int))
                    &&& final(parser)@.cursor == toks.len()
                },
                Err(e) => spec_parse_program(toks, i) == Err::<
                    (Seq<StatementView>, int),
                    ParseErrorView,
                >(e@),
            }
        }),
{
    let result = match parse_program(parser) {
        Ok(program) => program,
        Err(e) => {
            return Err(e);
        }
    };
    proof {
        lemma_spec_parse_program_ends(old(parser)@.tokens, old(parser)@.cursor);
    }
    if parser.is_done() {
        Ok(result)
    } else {
        // A parsed program always consumes every token, so this branch can
        // never run; the input beyond the program is still reported, at the
        // first unconsumed token.
        match parser.peek() {
            Some(token) => Err(ParseError::new_pos(token, ParseErrorKind::RemainingTokens)),
            None => Err(ParseError::new(ParseErrorKind::RemainingTokens)),
        }
    }
}

} // verus!
