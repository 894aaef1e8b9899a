use keymap_lang::{
    Mod, ParseError, ParseErrorKind, Parser, Position, Scanner, Token, TokenKind,
};

fn token(line: usize, col: usize, kind: TokenKind) -> Token {
    Token { line, col, kind }
}

#[test]
fn scanner_starts_at_line_one_column_one() {
    let scanner = Scanner::new("abc");
    assert_eq!(scanner.cursor(), 0);
    assert_eq!(scanner.curr_line, 1);
    assert_eq!(scanner.curr_col, 1);
    assert!(!scanner.is_done());
}

#[test]
fn scanner_pop_advances_columns_and_lines() {
    let mut scanner = Scanner::new("a\nb");
    assert_eq!(scanner.pop(), Some('a'));
    assert_eq!((scanner.curr_line, scanner.curr_col), (1, 2));
    assert_eq!(scanner.pop(), Some('\n'));
    assert_eq!((scanner.curr_line, scanner.curr_col), (2, 1));
    assert_eq!(scanner.pop(), Some('b'));
    assert_eq!((scanner.curr_line, scanner.curr_col), (2, 2));
    assert!(scanner.is_done());
    assert_eq!(scanner.pop(), None);
    assert_eq!(scanner.cursor(), 3);
}

#[test]
fn scanner_peek_does_not_advance() {
    let mut scanner = Scanner::new("xy");
    assert_eq!(scanner.peek(), Some('x'));
    assert_eq!(scanner.peek(), Some('x'));
    assert_eq!(scanner.cursor(), 0);
    scanner.pop();
    scanner.pop();
    assert_eq!(scanner.peek(), None);
}

#[test]
fn scanner_pop_in_range_checks_bounds() {
    let mut scanner = Scanner::new("ag");
    assert_eq!(scanner.pop_in_range('a', 'f'), Some('a'));
    assert_eq!(scanner.pop_in_range('a', 'f'), None);
    assert_eq!(scanner.cursor(), 1);
    assert_eq!(scanner.pop_in_range('a', 'z'), Some('g'));
    assert_eq!(scanner.pop_in_range('a', 'z'), None);
}

#[test]
fn scanner_pop_in_slice_checks_membership() {
    let mut scanner = Scanner::new(" \tx");
    let spaces = [' ', '\t'];
    assert_eq!(scanner.pop_in_slice(&spaces), Some(' '));
    assert_eq!(scanner.pop_in_slice(&spaces), Some('\t'));
    assert_eq!(scanner.pop_in_slice(&spaces), None);
    assert_eq!(scanner.cursor(), 2);
}

#[test]
fn scanner_take_consumes_only_on_match() {
    let mut scanner = Scanner::new("ab");
    assert!(!scanner.take(&'b'));
    assert_eq!(scanner.cursor(), 0);
    assert!(scanner.take(&'a'));
    assert_eq!(scanner.cursor(), 1);
}

#[test]
fn scanner_expect_reports_the_missing_character() {
    let mut scanner = Scanner::new("ab");
    assert_eq!(
        scanner.expect(&'b'),
        Err(keymap_lang::LexError::Expected('b'))
    );
    assert_eq!(scanner.cursor(), 0);
    assert_eq!(scanner.expect(&'a'), Ok(()));
    assert_eq!(scanner.cursor(), 1);
}

#[test]
fn scanner_take_str_is_atomic() {
    let mut scanner = Scanner::new("mapped");
    // A mismatch, even a partial one, leaves the cursor untouched.
    assert!(!scanner.take_str("madden"));
    assert_eq!(scanner.cursor(), 0);
    assert!(!scanner.take_str("mappedness"));
    assert_eq!(scanner.cursor(), 0);
    assert!(scanner.take_str("map"));
    assert_eq!(scanner.cursor(), 3);
    assert_eq!((scanner.curr_line, scanner.curr_col), (1, 4));
    assert!(scanner.take_str("ped"));
    assert!(scanner.is_done());
}

#[test]
fn scanner_take_str_counts_lines() {
    let mut scanner = Scanner::new("a\nb");
    assert!(scanner.take_str("a\nb"));
    assert_eq!((scanner.curr_line, scanner.curr_col), (2, 2));
}

#[test]
fn scanner_transform_applies_the_callback_once() {
    let mut scanner = Scanner::new("ab");
    let upper = scanner.transform(|c: &char| {
        if *c == 'a' {
            Some('A')
        } else {
            None
        }
    });
    assert_eq!(upper, Some('A'));
    assert_eq!(scanner.cursor(), 1);
    let upper = scanner.transform(|c: &char| {
        if *c == 'a' {
            Some('A')
        } else {
            None
        }
    });
    assert_eq!(upper, None);
    assert_eq!(scanner.cursor(), 1);
}

#[test]
fn parser_cursor_operations() {
    let tokens = vec![
        token(1, 1, TokenKind::Phrase("map")),
        token(1, 4, TokenKind::Id("up".to_string())),
    ];
    let mut parser = Parser::new(tokens);
    assert_eq!(parser.cursor(), 0);
    assert!(!parser.is_done());
    assert_eq!(parser.peek().unwrap().kind, TokenKind::Phrase("map"));
    assert_eq!(parser.cursor(), 0);
    let first = parser.pop().unwrap();
    assert_eq!(first.kind, TokenKind::Phrase("map"));
    let second = parser.pop().unwrap();
    assert_eq!(second.kind, TokenKind::Id("up".to_string()));
    assert!(parser.is_done());
    assert_eq!(parser.pop(), None);
    assert_eq!(parser.peek(), None);
    assert_eq!(parser.cursor(), 2);
}

#[test]
fn parser_take_id_only_takes_identifiers() {
    let mut parser = Parser::new(vec![
        token(1, 1, TokenKind::Id("left".to_string())),
        token(1, 6, TokenKind::Phrase("+")),
    ]);
    assert_eq!(parser.take_id(), Ok("left".to_string()));
    assert_eq!(
        parser.take_id(),
        Err(ParseError {
            position: Position::Pos { line: 1, col: 6 },
            kind: ParseErrorKind::ExpectedId,
        })
    );
    assert_eq!(parser.cursor(), 1);
    parser.pop();
    assert_eq!(
        parser.take_id(),
        Err(ParseError { position: Position::EOF, kind: ParseErrorKind::ExpectedId })
    );
}

#[test]
fn parser_take_mod_only_takes_modifiers() {
    let mut parser = Parser::new(vec![
        token(1, 1, TokenKind::Mod(Mod::Alt)),
        token(1, 4, TokenKind::Id("k".to_string())),
    ]);
    assert_eq!(parser.take_mod(), Ok(Mod::Alt));
    assert_eq!(
        parser.take_mod(),
        Err(ParseError {
            position: Position::Pos { line: 1, col: 4 },
            kind: ParseErrorKind::ExpectedMod,
        })
    );
    parser.pop();
    assert_eq!(
        parser.take_mod(),
        Err(ParseError { position: Position::EOF, kind: ParseErrorKind::ExpectedMod })
    );
}

#[test]
fn parser_expect_compares_kinds_not_positions() {
    // The expected kind is matched on classification and text alone: the
    // position recorded on the token plays no part.
    let mut parser = Parser::new(vec![
        token(3, 7, TokenKind::Phrase("map")),
        token(3, 11, TokenKind::Id("up".to_string())),
    ]);
    assert_eq!(parser.expect(TokenKind::Phrase("map")), Ok(()));
    assert_eq!(
        parser.expect(TokenKind::Newline),
        Err(ParseError {
            position: Position::Pos { line: 3, col: 11 },
            kind: ParseErrorKind::Expected(TokenKind::Newline),
        })
    );
    assert_eq!(parser.expect(TokenKind::Id("up".to_string())), Ok(()));
    assert_eq!(
        parser.expect(TokenKind::Whitespace),
        Err(ParseError {
            position: Position::EOF,
            kind: ParseErrorKind::Expected(TokenKind::Whitespace),
        })
    );
}

#[test]
fn token_new_stamps_scanner_position() {
    let mut scanner = Scanner::new("ab\nc");
    scanner.pop();
    scanner.pop();
    scanner.pop();
    let token = Token::new(&scanner, TokenKind::Whitespace);
    assert_eq!((token.line, token.col), (2, 1));
    assert_eq!(token.kind, TokenKind::Whitespace);
}
