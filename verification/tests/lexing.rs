use lox::error::{ErrorBag, LoxError};
use lox::lexer::{Lexer, TokenKind};

#[test]
fn lexer_recognizes_invalid_tokens() {
    let invalid_program = "let x = &y".to_string(); // & not a valid token
    let mut error_bag = ErrorBag { errors: vec![] };

    let mut lexer = Lexer::new(invalid_program);

    let _tokens: Vec<_> = lexer.tokenize(&mut error_bag);

    assert!(!error_bag.errors.is_empty());
}

#[test]
fn invalid_token_message_names_character_and_position() {
    let mut bag = ErrorBag::new();
    let mut lexer = Lexer::new(String::from("let x = &y"));
    lexer.tokenize(&mut bag);
    assert_eq!(bag.errors.len(), 1);
    match &bag.errors[0] {
        LoxError::LexerError(m) => {
            assert_eq!(m, "Use of invalid token: & at line 1, column 9");
        }
        _ => panic!("expected a lexical error"),
    }
}

#[test]
fn tokens_carry_their_start_positions() {
    let mut bag = ErrorBag::new();
    let mut lexer = Lexer::new(String::from("let x\n  == 2"));
    let tokens = lexer.tokenize(&mut bag);
    assert!(bag.errors.is_empty());
    assert_eq!(tokens.len(), 4);
    assert_eq!((tokens[0].span.line, tokens[0].span.column), (1, 1));
    assert!(matches!(tokens[0].kind, TokenKind::Let));
    assert_eq!((tokens[1].span.line, tokens[1].span.column), (1, 5));
    assert!(matches!(tokens[1].kind, TokenKind::Identifier(_)));
    assert_eq!((tokens[2].span.line, tokens[2].span.column), (2, 3));
    assert!(matches!(tokens[2].kind, TokenKind::Equal));
    assert_eq!((tokens[3].span.line, tokens[3].span.column), (2, 6));
    assert!(matches!(tokens[3].kind, TokenKind::Integer(2)));
}

#[test]
fn keywords_and_two_char_operators_lex() {
    let mut bag = ErrorBag::new();
    let mut lexer = Lexer::new(String::from("fn struct if else while for return true false None or and print != >= <= ! < > = =="));
    let tokens = lexer.tokenize(&mut bag);
    assert!(bag.errors.is_empty());
    let kinds: Vec<_> = tokens.into_iter().map(|t| t.kind).collect();
    assert!(matches!(kinds[0], TokenKind::Function));
    assert!(matches!(kinds[1], TokenKind::Struct));
    assert!(matches!(kinds[2], TokenKind::If));
    assert!(matches!(kinds[3], TokenKind::Else));
    assert!(matches!(kinds[4], TokenKind::While));
    assert!(matches!(kinds[5], TokenKind::For));
    assert!(matches!(kinds[6], TokenKind::Return));
    assert!(matches!(kinds[7], TokenKind::True));
    assert!(matches!(kinds[8], TokenKind::False));
    assert!(matches!(kinds[9], TokenKind::Nil));
    assert!(matches!(kinds[10], TokenKind::Or));
    assert!(matches!(kinds[11], TokenKind::And));
    assert!(matches!(kinds[12], TokenKind::Print));
    assert!(matches!(kinds[13], TokenKind::NotEqual));
    assert!(matches!(kinds[14], TokenKind::GreaterEqual));
    assert!(matches!(kinds[15], TokenKind::LessEqual));
    assert!(matches!(kinds[16], TokenKind::Bang));
    assert!(matches!(kinds[17], TokenKind::LessThan));
    assert!(matches!(kinds[18], TokenKind::GreaterThan));
    assert!(matches!(kinds[19], TokenKind::Assign));
    assert!(matches!(kinds[20], TokenKind::Equal));
}

#[test]
fn a_number_followed_by_a_bare_dot_stays_an_integer() {
    let mut bag = ErrorBag::new();
    let mut lexer = Lexer::new(String::from("12."));
    let tokens = lexer.tokenize(&mut bag);
    assert!(bag.errors.is_empty());
    assert_eq!(tokens.len(), 2);
    assert!(matches!(tokens[0].kind, TokenKind::Integer(12)));
    assert!(matches!(tokens[1].kind, TokenKind::Dot));
}

#[test]
fn a_string_keeps_its_inner_text() {
    let mut bag = ErrorBag::new();
    let mut lexer = Lexer::new(String::from("\"hello world\""));
    let tokens = lexer.tokenize(&mut bag);
    assert!(bag.errors.is_empty());
    assert_eq!(tokens.len(), 1);
    match &tokens[0].kind {
        TokenKind::QuotedString(s) => assert_eq!(s, "hello world"),
        _ => panic!("expected a string token"),
    }
}

#[test]
fn error_bag_drains_every_kind_in_reverse_order() {
    let mut bag = ErrorBag {
        errors: vec![
            LoxError::LexerError(String::from("first")),
            LoxError::ParseError(String::from("middle")),
            LoxError::LexerError(String::from("last")),
        ],
    };
    let msgs = bag.drain();
    assert!(bag.errors.is_empty());
    assert_eq!(
        msgs,
        vec![
            String::from("last"),
            String::from("middle"),
            String::from("first")
        ]
    );
}
