use keymap_lang::{LexError, Mod, Scanner, Token, TokenKind};

fn lex_input(input: &str) -> Result<Vec<Token>, LexError> {
    let mut scanner = Scanner::new(input);
    keymap_lang::lexer::lex(&mut scanner)
}

fn assert_token(token: &Token, line: usize, col: usize, kind: TokenKind) {
    assert_eq!(token.line, line);
    assert_eq!(token.col, col);
    assert_eq!(token.kind, kind);
}

#[test]
fn lex_empty_input() {
    assert_eq!(lex_input(""), Ok(vec![]));
}

#[test]
fn lex_only_whitespace() {
    assert_eq!(lex_input("  \t "), Ok(vec![]));
}

#[test]
fn rule_precedence_ctrl() {
    // "ctrl" alone lexes to exactly one modifier token, never an identifier.
    let tokens = lex_input("ctrl").unwrap();
    assert_eq!(tokens.len(), 1);
    assert_token(&tokens[0], 1, 1, TokenKind::Mod(Mod::Ctrl));
}

#[test]
fn rule_precedence_shift_and_alt() {
    let tokens = lex_input("shift").unwrap();
    assert_eq!(tokens.len(), 1);
    assert_token(&tokens[0], 1, 1, TokenKind::Mod(Mod::Shift));
    let tokens = lex_input("alt").unwrap();
    assert_eq!(tokens.len(), 1);
    assert_token(&tokens[0], 1, 1, TokenKind::Mod(Mod::Alt));
}

#[test]
fn lex_single_identifier() {
    let tokens = lex_input("abra").unwrap();
    assert_eq!(tokens.len(), 1);
    assert_token(&tokens[0], 1, 1, TokenKind::Id("abra".to_string()));
}

#[test]
fn lex_uppercase_identifier() {
    // Uppercase letters never form keywords, so "Map" is a plain identifier.
    let tokens = lex_input("Map").unwrap();
    assert_eq!(tokens.len(), 1);
    assert_token(&tokens[0], 1, 1, TokenKind::Id("Map".to_string()));
}

#[test]
fn lex_keyword_prefix_splits() {
    // The modifier rule is greedy: "ctrlx" is "ctrl" then the identifier "x".
    let tokens = lex_input("ctrlx").unwrap();
    assert_eq!(tokens.len(), 2);
    assert_token(&tokens[0], 1, 1, TokenKind::Mod(Mod::Ctrl));
    assert_token(&tokens[1], 1, 5, TokenKind::Id("x".to_string()));
}

#[test]
fn round_trip_positions_adjacent_tokens() {
    // Without whitespace, each token's recorded position is the start of its
    // own text: advancing over "ctrl" (4 characters) from column 1 lands on
    // column 5, and over "+" on column 6.
    let tokens = lex_input("ctrl+k").unwrap();
    assert_eq!(tokens.len(), 3);
    assert_token(&tokens[0], 1, 1, TokenKind::Mod(Mod::Ctrl));
    assert_token(&tokens[1], 1, 5, TokenKind::Phrase("+"));
    assert_token(&tokens[2], 1, 6, TokenKind::Id("k".to_string()));
}

#[test]
fn whitespace_tokens_are_dropped() {
    // Whitespace is consumed but never emitted; each token's recorded
    // position is the one stamped after the previous kept token, so the
    // whitespace shifts the later labels back to where the whitespace began.
    let tokens = lex_input("map up up").unwrap();
    assert_eq!(tokens.len(), 3);
    assert_token(&tokens[0], 1, 1, TokenKind::Phrase("map"));
    assert_token(&tokens[1], 1, 4, TokenKind::Id("up".to_string()));
    assert_token(&tokens[2], 1, 7, TokenKind::Id("up".to_string()));
}

#[test]
fn newline_tokens_and_line_positions() {
    let tokens = lex_input("map up\nmap down down").unwrap();
    assert_eq!(tokens.len(), 6);
    assert_token(&tokens[0], 1, 1, TokenKind::Phrase("map"));
    assert_token(&tokens[1], 1, 4, TokenKind::Id("up".to_string()));
    assert_token(&tokens[2], 1, 7, TokenKind::Newline);
    assert_token(&tokens[3], 2, 1, TokenKind::Phrase("map"));
    assert_token(&tokens[4], 2, 4, TokenKind::Id("down".to_string()));
    assert_token(&tokens[5], 2, 9, TokenKind::Id("down".to_string()));
}

#[test]
fn lexical_rejection_digit() {
    // A digit belongs to no rule: lexing fails with RemainingInput, and the
    // prefix collected so far (still carrying the uncorrected stamps) rides
    // along for diagnostics.
    match lex_input("map 7 up") {
        Err(LexError::RemainingInput(prefix)) => {
            assert_eq!(prefix.len(), 1);
            assert_eq!(prefix[0].kind, TokenKind::Phrase("map"));
            assert_eq!((prefix[0].line, prefix[0].col), (1, 4));
        }
        other => panic!("expected RemainingInput, got {:?}", other),
    }
}

#[test]
fn lexical_rejection_symbol() {
    match lex_input("-") {
        Err(LexError::RemainingInput(prefix)) => assert_eq!(prefix.len(), 0),
        other => panic!("expected RemainingInput, got {:?}", other),
    }
}

#[test]
fn lexical_rejection_mid_identifier() {
    match lex_input("up=down") {
        Err(LexError::RemainingInput(prefix)) => {
            assert_eq!(prefix.len(), 1);
            assert_eq!(prefix[0].kind, TokenKind::Id("up".to_string()));
        }
        other => panic!("expected RemainingInput, got {:?}", other),
    }
}

#[test]
fn lex_rule_errors() {
    // Each rule reports its own recoverable error when it does not match;
    // the cursor is left where it was.
    let mut scanner = Scanner::new("7");
    assert_eq!(
        keymap_lang::lexer::lex_mod(&mut scanner),
        Err(LexError::ExpectedMod)
    );
    assert_eq!(
        keymap_lang::lexer::lex_newline(&mut scanner),
        Err(LexError::Expected('\n'))
    );
    assert_eq!(
        keymap_lang::lexer::lex_whitespace(&mut scanner),
        Err(LexError::ExpectedWhitespace)
    );
    assert_eq!(
        keymap_lang::lexer::lex_phrase(&mut scanner, "map"),
        Err(LexError::ExpectedPhrase("map"))
    );
    assert_eq!(
        keymap_lang::lexer::lex_id(&mut scanner),
        Err(LexError::ExpectedId)
    );
    assert_eq!(scanner.cursor(), 0);
}

#[test]
fn lex_rule_tokens_are_stamped_past_their_text() {
    // A rule stamps the position after the token's characters; the
    // corrective pass in lex is what shifts it back.
    let mut scanner = Scanner::new("map");
    let token = keymap_lang::lexer::lex_phrase(&mut scanner, "map").unwrap();
    assert_eq!((token.line, token.col), (1, 4));
    assert_eq!(token.kind, TokenKind::Phrase("map"));
}
