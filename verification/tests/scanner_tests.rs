use rlox::scanner::{LiteralValue, Scanner, TokenType};

#[test]
fn handle_char_tokens() {
    let source = "((  )) {}";
    let mut scanner = Scanner::new(source);
    let _ = scanner.scan_tokens();

    assert_eq!(scanner.tokens.len(), 7);
    assert_eq!(scanner.tokens[0].token_type, TokenType::LeftParen);
    assert_eq!(scanner.tokens[1].token_type, TokenType::LeftParen);
    assert_eq!(scanner.tokens[2].token_type, TokenType::RightParen);
    assert_eq!(scanner.tokens[3].token_type, TokenType::RightParen);
    assert_eq!(scanner.tokens[4].token_type, TokenType::LeftBrace);
    assert_eq!(scanner.tokens[5].token_type, TokenType::RightBrace);
    assert_eq!(scanner.tokens[6].token_type, TokenType::Eof);
}

#[test]
fn test_operators_tokens() {
    let source = "! != == >=";
    let mut scanner = Scanner::new(source);
    let _ = scanner.scan_tokens();

    assert_eq!(scanner.tokens.len(), 5);
    assert_eq!(scanner.tokens[0].token_type, TokenType::Bang);
    assert_eq!(scanner.tokens[1].token_type, TokenType::BangEqual);
    assert_eq!(scanner.tokens[2].token_type, TokenType::EqualEqual);
    assert_eq!(scanner.tokens[3].token_type, TokenType::GreaterEqual);
    assert_eq!(scanner.tokens[4].token_type, TokenType::Eof);
}

#[test]
fn handle_string_literals() {
    let source = r#""YAY""#;
    let mut scanner = Scanner::new(source);
    let _ = scanner.scan_tokens();
    assert_eq!(scanner.tokens.len(), 2);
    assert_eq!(scanner.tokens[0].token_type, TokenType::StringLit);

    match scanner.tokens[0].literal.as_ref().unwrap() {
        LiteralValue::StringValue(val) => assert_eq!(val, "YAY"),
        _ => panic!("Unrecognized literal"),
    }
}

#[test]
fn handle_terminated_string_literals() {
    let source = r#""YAY"#;
    let mut scanner = Scanner::new(source);
    let result = scanner.scan_tokens();

    match result {
        Err(_) => (),
        _ => panic!("Should have failed"),
    }
}

#[test]
fn handle_multiline_string_literals() {
    let source = "\"YAY\ndef\"";
    let mut scanner = Scanner::new(source);
    let _ = scanner.scan_tokens();

    assert_eq!(scanner.tokens.len(), 2);
    assert_eq!(scanner.tokens[0].token_type, TokenType::StringLit);

    match scanner.tokens[0].literal.as_ref().unwrap() {
        LiteralValue::StringValue(val) => assert_eq!(val, "YAY\ndef"),
        _ => panic!("Unrecognized literal"),
    }
}

#[test]
fn handle_number_literals() {
    let source = "123.456\n321.0\n5";
    let mut scanner = Scanner::new(source);
    let _ = scanner.scan_tokens();

    assert_eq!(scanner.tokens.len(), 4);
    for i in 0..3 {
        assert_eq!(scanner.tokens[i].token_type, TokenType::Number);
    }
    match scanner.tokens[0].literal {
        Some(LiteralValue::NumberValue { mag }) => assert_eq!(mag as f64 / 1e6, 123.456),
        _ => panic!("Unrecognized literal"),
    }
    match scanner.tokens[1].literal {
        Some(LiteralValue::NumberValue { mag }) => assert_eq!(mag as f64 / 1e6, 321.0),
        _ => panic!("Unrecognized literal"),
    }
    match scanner.tokens[2].literal {
        Some(LiteralValue::NumberValue { mag }) => assert_eq!(mag as f64 / 1e6, 5.0),
        _ => panic!("Unrecognized literal"),
    }
}

#[test]
fn handle_identifiers() {
    let source = "init_var = 28;";
    let mut scanner = Scanner::new(source);
    let _ = scanner.scan_tokens();

    assert_eq!(scanner.tokens.len(), 5);
    assert_eq!(scanner.tokens[0].token_type, TokenType::Identifier);
    assert_eq!(scanner.tokens[1].token_type, TokenType::Equal);
    assert_eq!(scanner.tokens[2].token_type, TokenType::Number);
    assert_eq!(scanner.tokens[3].token_type, TokenType::Semicolon);
    assert_eq!(scanner.tokens[4].token_type, TokenType::Eof);
}

#[test]
fn handle_keywords() {
    let source = "var var_name = 8; \nwhile true { print 3 };";
    let mut scanner = Scanner::new(source);
    let _ = scanner.scan_tokens();

    assert_eq!(scanner.tokens.len(), 13);
    assert_eq!(scanner.tokens[0].token_type, TokenType::Var);
    assert_eq!(scanner.tokens[1].token_type, TokenType::Identifier);
    assert_eq!(scanner.tokens[2].token_type, TokenType::Equal);
    assert_eq!(scanner.tokens[3].token_type, TokenType::Number);
    assert_eq!(scanner.tokens[4].token_type, TokenType::Semicolon);
    assert_eq!(scanner.tokens[5].token_type, TokenType::While);
    assert_eq!(scanner.tokens[6].token_type, TokenType::True);
    assert_eq!(scanner.tokens[7].token_type, TokenType::LeftBrace);
    assert_eq!(scanner.tokens[8].token_type, TokenType::Print);
    assert_eq!(scanner.tokens[9].token_type, TokenType::Number);
    assert_eq!(scanner.tokens[10].token_type, TokenType::RightBrace);
    assert_eq!(scanner.tokens[11].token_type, TokenType::Semicolon);
    assert_eq!(scanner.tokens[12].token_type, TokenType::Eof);
}

#[test]
fn comments_and_slash() {
    let source = "1 / 2 // the rest is ignored ()\n3";
    let mut scanner = Scanner::new(source);
    let tokens = scanner.scan_tokens().unwrap();
    let kinds: Vec<TokenType> = tokens.iter().map(|t| t.token_type).collect();
    assert_eq!(
        kinds,
        vec![
            TokenType::Number,
            TokenType::Slash,
            TokenType::Number,
            TokenType::Number,
            TokenType::Eof
        ]
    );
    assert_eq!(tokens[3].line_number, 2);
}

#[test]
fn eof_always_last_even_with_errors() {
    let source = "@ # 1";
    let mut scanner = Scanner::new(source);
    let result = scanner.scan_tokens();
    assert!(result.is_err());
    let last = scanner.tokens.last().unwrap();
    assert_eq!(last.token_type, TokenType::Eof);
    assert_eq!(last.lexeme, "");
    for t in scanner.tokens.iter().take(scanner.tokens.len() - 1) {
        assert!(t.token_type != TokenType::Eof);
    }
}

#[test]
fn unexpected_character_error_message() {
    let mut scanner = Scanner::new("@");
    let errs = scanner.scan_tokens().unwrap_err();
    assert_eq!(errs.len(), 1);
    assert_eq!(errs[0].message(), "Unexpected character at line 1: @");
}

#[test]
fn number_too_large_is_number_format_error() {
    // The integer part of a literal may have at most thirteen digits.
    let mut scanner = Scanner::new("99999999999999");
    let errs = scanner.scan_tokens().unwrap_err();
    assert_eq!(errs.len(), 1);
    assert!(matches!(
        errs[0],
        rlox::scanner::ScanError::NumberFormat { .. }
    ));
}

#[test]
fn trailing_dot_is_not_part_of_number() {
    let mut scanner = Scanner::new("123.");
    let tokens = scanner.scan_tokens().unwrap();
    assert_eq!(tokens.len(), 3);
    assert_eq!(tokens[0].token_type, TokenType::Number);
    assert_eq!(tokens[1].token_type, TokenType::Dot);
    assert_eq!(tokens[2].token_type, TokenType::Eof);
}

#[test]
fn token_new_carries_fields() {
    let t = rlox::scanner::Token::new(TokenType::Plus, "+".to_string(), None, 7);
    assert_eq!(t.token_type, TokenType::Plus);
    assert_eq!(t.lexeme, "+");
    assert!(t.literal.is_none());
    assert_eq!(t.line_number, 7);
}

#[test]
fn char_classes() {
    assert!(rlox::scanner::is_digit('0'));
    assert!(rlox::scanner::is_digit('9'));
    assert!(!rlox::scanner::is_digit('a'));
    assert!(rlox::scanner::is_alpha('a'));
    assert!(rlox::scanner::is_alpha('Z'));
    assert!(rlox::scanner::is_alpha('_'));
    assert!(!rlox::scanner::is_alpha('1'));
    assert!(rlox::scanner::is_alpha_numeric('x'));
    assert!(rlox::scanner::is_alpha_numeric('3'));
    assert!(!rlox::scanner::is_alpha_numeric(' '));
}
