use keymap_lang::{
    Key, LexError, MapBinding, Mod, ParseError, ParseErrorKind, Parser, Position, Program,
    Scanner, Statement, TokenKind,
};

fn parse_input(input: &str) -> Result<Program, ParseError> {
    let mut scanner = Scanner::new(input);
    let tokens = keymap_lang::lexer::lex(&mut scanner).unwrap();
    let mut parser = Parser::new(tokens);
    keymap_lang::parser::parse(&mut parser)
}

fn binding(modifier: Option<Mod>, key: &str, cmd_name: &str) -> Statement {
    Statement::Binding(MapBinding {
        key: Key { modifier, key: key.to_string() },
        cmd_name: cmd_name.to_string(),
    })
}

#[test]
fn grammar_acceptance() {
    let program = parse_input("map up up").unwrap();
    assert_eq!(program, vec![binding(None, "up", "up")]);
}

#[test]
fn grammar_acceptance_with_modifier() {
    let program = parse_input("map ctrl+k up").unwrap();
    assert_eq!(program, vec![binding(Some(Mod::Ctrl), "k", "up")]);
}

#[test]
fn multi_statement_in_source_order() {
    let program = parse_input("map up up\nmap down down").unwrap();
    assert_eq!(
        program,
        vec![binding(None, "up", "up"), binding(None, "down", "down")]
    );
}

#[test]
fn positioned_failure_missing_command() {
    // "map ctrl+k" has no fifth token: the command-name identifier is
    // missing, and the failure is positioned at the end of the input.
    assert_eq!(
        parse_input("map ctrl+k"),
        Err(ParseError { position: Position::EOF, kind: ParseErrorKind::ExpectedId })
    );
}

#[test]
fn dangling_modifier_literal() {
    // Once a modifier is seen the "+" is mandatory; its absence is reported
    // at the token that stood in its place.
    assert_eq!(
        parse_input("map ctrl k"),
        Err(ParseError {
            position: Position::Pos { line: 1, col: 9 },
            kind: ParseErrorKind::Expected(TokenKind::Phrase("+")),
        })
    );
}

#[test]
fn missing_newline_between_statements() {
    assert_eq!(
        parse_input("map up up up"),
        Err(ParseError {
            position: Position::Pos { line: 1, col: 10 },
            kind: ParseErrorKind::Expected(TokenKind::Newline),
        })
    );
}

#[test]
fn empty_input_expects_map() {
    assert_eq!(
        parse_input(""),
        Err(ParseError {
            position: Position::EOF,
            kind: ParseErrorKind::Expected(TokenKind::Phrase("map")),
        })
    );
}

#[test]
fn trailing_newline_expects_statement() {
    // The grammar demands a statement after every newline.
    assert_eq!(
        parse_input("map up up\n"),
        Err(ParseError {
            position: Position::EOF,
            kind: ParseErrorKind::Expected(TokenKind::Phrase("map")),
        })
    );
}

#[test]
fn statement_must_start_with_map() {
    assert_eq!(
        parse_input("up up up"),
        Err(ParseError {
            position: Position::Pos { line: 1, col: 1 },
            kind: ParseErrorKind::Expected(TokenKind::Phrase("map")),
        })
    );
}

#[test]
fn whitespace_elision_preserves_program() {
    // Extra runs of spaces and tabs between tokens move recorded positions
    // but never change the parsed program.
    let plain = parse_input("map up up").unwrap();
    let padded = parse_input("map \t  up    up").unwrap();
    assert_eq!(plain, padded);
    let plain = parse_input("map ctrl+k up").unwrap();
    let padded = parse_input("map  ctrl+k \t up").unwrap();
    assert_eq!(plain, padded);
}

#[test]
fn lex_then_parse_rejects_bad_character() {
    let mut scanner = Scanner::new("map ctrl+1 up");
    match keymap_lang::lexer::lex(&mut scanner) {
        Err(LexError::RemainingInput(prefix)) => {
            assert_eq!(prefix.len(), 3);
        }
        other => panic!("expected RemainingInput, got {:?}", other),
    }
}

#[test]
fn parse_key_with_and_without_modifier() {
    let mut scanner = Scanner::new("ctrl+k");
    let tokens = keymap_lang::lexer::lex(&mut scanner).unwrap();
    let mut parser = Parser::new(tokens);
    let key = keymap_lang::parser::parse_key(&mut parser).unwrap();
    assert_eq!(key, Key { modifier: Some(Mod::Ctrl), key: "k".to_string() });
    assert!(parser.is_done());

    let mut scanner = Scanner::new("k");
    let tokens = keymap_lang::lexer::lex(&mut scanner).unwrap();
    let mut parser = Parser::new(tokens);
    let key = keymap_lang::parser::parse_key(&mut parser).unwrap();
    assert_eq!(key, Key { modifier: None, key: "k".to_string() });
}

#[test]
fn parse_map_builds_binding() {
    let mut scanner = Scanner::new("map shift+q quit");
    let tokens = keymap_lang::lexer::lex(&mut scanner).unwrap();
    let mut parser = Parser::new(tokens);
    let map_binding = keymap_lang::parser::parse_map(&mut parser).unwrap();
    assert_eq!(
        map_binding,
        MapBinding {
            key: Key { modifier: Some(Mod::Shift), key: "q".to_string() },
            cmd_name: "quit".to_string(),
        }
    );
    assert!(parser.is_done());
}

#[test]
fn parse_statement_wraps_binding() {
    let mut scanner = Scanner::new("map alt+w close");
    let tokens = keymap_lang::lexer::lex(&mut scanner).unwrap();
    let mut parser = Parser::new(tokens);
    let statement = keymap_lang::parser::parse_statement(&mut parser).unwrap();
    assert_eq!(statement, binding(Some(Mod::Alt), "w", "close"));
}
